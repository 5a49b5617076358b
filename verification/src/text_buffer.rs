//! A fixed window of 1024 bytes of a file with a write head. The file itself
//! is read and written by the caller.

use vstd::prelude::*;
use crate::snapshot_controller::saturate_usize;

verus! {

/// Moving the head by `d` and back by `d` returns it where it was, unless the
/// first move saturated.
pub proof fn law_move_head_back(head: usize, d: isize)
    requires
        0 <= head + d <= usize::MAX,
        d > isize::MIN,
    ensures
        saturate_usize(saturate_usize(head + d) + (-d) as isize) == head,
{
}

pub struct TextBuffer {
    fptr: u64,
    chars: [u8; 1024],
    head: usize,
}

impl TextBuffer {
    /// The file offset where the window starts.
    pub closed spec fn file_offset(&self) -> u64 {
        self.fptr
    }

    /// The bytes of the window.
    pub closed spec fn bytes(&self) -> Seq<u8> {
        self.chars@
    }

    /// Where the next byte is written.
    pub closed spec fn head(&self) -> usize {
        self.head
    }

    /// A buffer over the first 1024 bytes of a file, read into `chars`, with
    /// the head at the start.
    pub fn from_bytes(chars: [u8; 1024]) -> (res: TextBuffer)
        ensures
            res.file_offset() == 0,
            res.bytes() == chars@,
            res.bytes().len() == 1024,
            res.head() == 0,
    {
        broadcast use vstd::array::group_array_axioms;

        TextBuffer { fptr: 0, chars, head: 0 }
    }

    /// Writes `c` at the head (which must lie inside the window).
    pub fn write_char(&mut self, c: u8)
        requires
            old(self).head() < 1024,
        ensures
            final(self).bytes() == old(self).bytes().update(old(self).head() as int, c),
            final(self).bytes().len() == 1024,
            final(self).bytes()[old(self).head() as int] == c,
            final(self).head() == old(self).head(),
            final(self).file_offset() == old(self).file_offset(),
    {
        broadcast use vstd::array::group_array_axioms;

        self.chars[self.head] = c;
    }

    /// Moves the head by `dst` bytes, saturating at the ends of `usize`.
    pub fn move_head(&mut self, dst: isize)
        ensures
            final(self).head() == saturate_usize(old(self).head() + dst),
            final(self).bytes() == old(self).bytes(),
            final(self).bytes().len() == 1024,
            final(self).file_offset() == old(self).file_offset(),
    {
        broadcast use vstd::array::group_array_axioms;

        let head = self.head;
        self.head = if dst >= 0 {
            let d: usize = dst as usize;
            if head > usize::MAX - d {
                usize::MAX
            } else {
                head + d
            }
        } else {
            let d: usize = ((-(dst + 1)) as usize) + 1;
            if d > head {
                0
            } else {
                head - d
            }
        };
    }

    /// Where the next byte is written.
    pub fn head_index(&self) -> (res: usize)
        ensures
            res == self.head(),
    {
        self.head
    }

    /// The file offset where the window starts.
    pub fn fptr(&self) -> (res: u64)
        ensures
            res == self.file_offset(),
    {
        self.fptr
    }

    /// The bytes of the window.
    pub fn chars(&self) -> (res: &[u8; 1024])
        ensures
            res@ == self.bytes(),
            self.bytes().len() == 1024,
    {
        broadcast use vstd::array::group_array_axioms;

        &self.chars
    }
}

} // verus!
