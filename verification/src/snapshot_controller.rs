//! Undo/redo history: a list of snapshots of the text and a pointer to the
//! snapshot that is current.

use vstd::prelude::*;

verus! {

/// One saved state of the editor: the text and where the cursor stood.
pub struct Snapshot {
    pub data: String,
    pub cursor_pos: (u16, u16),
}

impl Clone for Snapshot {
    fn clone(&self) -> (res: Self)
        ensures
            res@ == self@,
    {
        Snapshot { data: self.data.clone(), cursor_pos: self.cursor_pos }
    }
}

/// The abstract value of a snapshot: the text as characters and the cursor.
pub type SnapshotModel = (Seq<char>, (u16, u16));

impl View for Snapshot {
    type V = SnapshotModel;

    open spec fn view(&self) -> SnapshotModel {
        (self.data@, self.cursor_pos)
    }
}

/// The history after a snapshot is pushed: everything above the current
/// snapshot is dropped, the new one goes on top and becomes current.
pub open spec fn push_model(snaps: Seq<SnapshotModel>, current: nat, s: SnapshotModel) -> (
    Seq<SnapshotModel>,
    nat,
) {
    (snaps.take(current + 1 as int).push(s), current + 1)
}

/// `x` clamped to the range of `usize`.
pub open spec fn saturate_usize(x: int) -> nat {
    if x < 0 {
        0
    } else if x > usize::MAX {
        usize::MAX as nat
    } else {
        x as nat
    }
}

/// The current index after moving by `num_states`: saturating in `usize`,
/// then clamped to the last snapshot.
pub open spec fn move_model(len: nat, current: nat, num_states: int) -> nat {
    let moved = saturate_usize(current + num_states);
    if moved > len - 1 {
        (len - 1) as nat
    } else {
        moved
    }
}

/// After a push, moving back one step reaches the snapshot that was current
/// before, unchanged, and moving forward again reaches the pushed one.
pub proof fn law_push_back_forward(snaps: Seq<SnapshotModel>, current: nat, s: SnapshotModel)
    requires
        current < snaps.len() <= usize::MAX,
    ensures
        ({
            let (h, c) = push_model(snaps, current, s);
            let back = move_model(h.len(), c, -1);
            &&& back == current
            &&& h[back as int] == snaps[current as int]
            &&& move_model(h.len(), back, 1) == c
            &&& h[c as int] == s
        }),
{
}

/// Moving the pointer never leaves the history.
pub proof fn law_move_stays_inside(len: nat, current: nat, n: int)
    requires
        len > 0,
    ensures
        move_model(len, current, n) < len,
{
}

pub struct SnapshotController {
    cache: Vec<Snapshot>,
    current_snapshot: usize,
}

impl SnapshotController {
    /// The snapshots, oldest first.
    pub closed spec fn snapshots(&self) -> Seq<SnapshotModel> {
        self.cache@.map_values(|s: Snapshot| s@)
    }

    /// Index of the current snapshot.
    pub closed spec fn current(&self) -> nat {
        self.current_snapshot as nat
    }

    /// The history is never empty and the pointer stays inside it.
    pub open spec fn wf(&self) -> bool {
        &&& self.current() < self.snapshots().len()
        &&& self.snapshots().len() <= usize::MAX
    }

    /// The snapshot that is current.
    pub open spec fn current_model(&self) -> SnapshotModel {
        self.snapshots()[self.current() as int]
    }

    /// A history holding one snapshot, which is current.
    pub fn new(data: String, cursor_pos: (u16, u16)) -> (res: SnapshotController)
        ensures
            res.wf(),
            res.snapshots() == seq![(data@, cursor_pos)],
            res.current() == 0,
    {
        let mut cache: Vec<Snapshot> = Vec::new();
        cache.push(Snapshot { data, cursor_pos });
        let _ = cache.len();
        let res = SnapshotController { cache, current_snapshot: 0 };
        assert(res.snapshots() =~= seq![(data@, cursor_pos)]);
        res
    }

    /// Drops every snapshot above the current one, then pushes the new one
    /// and makes it current.
    pub fn push_snapshot(&mut self, data: String, cursor_pos: (u16, u16))
        requires
            old(self).wf(),
        ensures
            final(self).wf(),
            (final(self).snapshots(), final(self).current()) == push_model(
                old(self).snapshots(),
                old(self).current(),
                (data@, cursor_pos),
            ),
    {
        let ghost s = (data@, cursor_pos);
        let len = self.cache.len();
        assert(self.current_snapshot < len);
        let keep = self.current_snapshot + 1;
        self.cache.truncate(keep);
        self.cache.push(Snapshot { data, cursor_pos });
        let _ = self.cache.len();
        self.current_snapshot = self.current_snapshot + 1;
        assert(self.snapshots() =~= old(self).snapshots().take(old(self).current() + 1 as int).push(s));
    }

    /// Moves the pointer by `num_states` (negative is back in time),
    /// saturating, and clamps it to the snapshots that exist.
    pub fn move_pointer(&mut self, num_states: isize)
        requires
            old(self).wf(),
        ensures
            final(self).wf(),
            final(self).snapshots() == old(self).snapshots(),
            final(self).current() == move_model(
                old(self).snapshots().len(),
                old(self).current(),
                num_states as int,
            ),
    {
        let cur = self.current_snapshot;
        let moved: usize = if num_states >= 0 {
            let d: usize = num_states as usize;
            if cur > usize::MAX - d {
                usize::MAX
            } else {
                cur + d
            }
        } else {
            let d: usize = ((-(num_states + 1)) as usize) + 1;
            if d > cur {
                0
            } else {
                cur - d
            }
        };
        let last: usize = self.cache.len() - 1;
        self.current_snapshot = if moved > last {
            last
        } else {
            moved
        };
    }

    /// A copy of the current snapshot.
    pub fn get_current_snapshot(&self) -> (res: Snapshot)
        requires
            self.wf(),
        ensures
            res@ == self.current_model(),
    {
        self.cache[self.current_snapshot].clone()
    }
}

} // verus!
