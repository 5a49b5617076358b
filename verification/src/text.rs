//! The text model: a text is a sequence of characters, positions in it are
//! character indices, and the byte offset of a position is the length of the
//! UTF-8 encoding of the characters before it. Rows are the pieces between
//! newline characters.

use vstd::prelude::*;
use vstd::std_specs::iter::IteratorSpec;
use vstd::utf8::{char_is_scalar, encode_scalar, encode_utf8};

verus! {

/// Number of bytes in the UTF-8 encoding of `c`.
pub open spec fn char_width(c: char) -> nat {
    if (c as u32) < 0x80 {
        1
    } else if (c as u32) < 0x800 {
        2
    } else if (c as u32) < 0x10000 {
        3
    } else {
        4
    }
}

/// Number of bytes in the UTF-8 encoding of `s`.
pub open spec fn utf8_len(s: Seq<char>) -> nat
    decreases s.len(),
{
    if s.len() == 0 {
        0
    } else {
        utf8_len(s.drop_last()) + char_width(s.last())
    }
}

/// Byte offset of the character position `k` in `t`.
pub open spec fn byte_offset(t: Seq<char>, k: int) -> nat {
    utf8_len(t.take(k))
}

/// `b` is the byte offset of some character position of `t`.
pub open spec fn is_boundary(t: Seq<char>, b: int) -> bool {
    exists|k: int| 0 <= k <= t.len() && #[trigger] byte_offset(t, k) == b
}

/// Number of newline characters before position `k`: the row of `k`.
pub open spec fn row_of(t: Seq<char>, k: int) -> nat
    decreases k,
{
    if k <= 0 {
        0
    } else {
        row_of(t, k - 1) + if t[k - 1] == '\n' {
            1nat
        } else {
            0nat
        }
    }
}

/// Number of characters between the last newline before `k` and `k`: the column of `k`.
pub open spec fn col_of(t: Seq<char>, k: int) -> nat
    decreases k,
{
    if k <= 0 {
        0
    } else if t[k - 1] == '\n' {
        0
    } else {
        col_of(t, k - 1) + 1
    }
}

/// Number of newline characters in `t`.
pub open spec fn newline_count(t: Seq<char>) -> nat {
    row_of(t, t.len() as int)
}

/// Number of lines in `t`, counted as `str::lines` counts them: a final
/// line without a newline counts, an empty one after the last newline does not.
pub open spec fn line_count(t: Seq<char>) -> nat {
    newline_count(t) + if t.len() > 0 && t.last() != '\n' {
        1nat
    } else {
        0nat
    }
}

/// `s` is where row `r` begins.
pub open spec fn is_row_start(t: Seq<char>, r: nat, s: int) -> bool {
    &&& 0 <= s <= t.len()
    &&& row_of(t, s) == r
    &&& (s == 0 || t[s - 1] == '\n')
}

/// `e` is where row `r` ends: at its newline, or at the end of the text.
pub open spec fn is_row_end(t: Seq<char>, r: nat, e: int) -> bool {
    &&& 0 <= e <= t.len()
    &&& row_of(t, e) == r
    &&& (e == t.len() || t[e] == '\n')
}

/// The position where row `r` begins (meaningful for `r <= newline_count(t)`).
pub open spec fn row_start(t: Seq<char>, r: nat) -> int {
    choose|s: int| is_row_start(t, r, s)
}

/// The position where row `r` ends (meaningful for `r <= newline_count(t)`).
pub open spec fn row_end(t: Seq<char>, r: nat) -> int {
    choose|e: int| is_row_end(t, r, e)
}

/// The position at column `c` of row `r`, clamped to the end of that row;
/// the end of the text when there is no row `r`.
pub open spec fn index_at(t: Seq<char>, r: nat, c: nat) -> int {
    if r <= newline_count(t) {
        let s = row_start(t, r);
        let e = row_end(t, r);
        if s + c <= e {
            s + c
        } else {
            e
        }
    } else {
        t.len() as int
    }
}

/// Number of characters of row `r` as `str::lines` yields it: without its
/// newline, and without a carriage return just before that newline.
pub open spec fn line_len(t: Seq<char>, r: nat) -> nat {
    let s = row_start(t, r);
    let e = row_end(t, r);
    if e < t.len() && e > s && t[e - 1] == '\r' {
        (e - s - 1) as nat
    } else {
        (e - s) as nat
    }
}

/// The characters of row `r` as `str::lines` yields it.
pub open spec fn line_text(t: Seq<char>, r: nat) -> Seq<char> {
    let s = row_start(t, r);
    t.subrange(s, s + line_len(t, r))
}

// ---------------------------------------------------------------------------
// Byte offsets
// ---------------------------------------------------------------------------

pub proof fn lemma_utf8_len_push(s: Seq<char>, c: char)
    ensures
        utf8_len(s.push(c)) == utf8_len(s) + char_width(c),
{
    assert(s.push(c).drop_last() =~= s);
}

pub proof fn lemma_offset_step(t: Seq<char>, k: int)
    requires
        0 <= k < t.len(),
    ensures
        byte_offset(t, k + 1) == byte_offset(t, k) + char_width(t[k]),
{
    assert(t.take(k + 1).drop_last() =~= t.take(k));
}

pub proof fn lemma_offset_zero(t: Seq<char>)
    ensures
        byte_offset(t, 0) == 0,
{
    assert(t.take(0).len() == 0);
}

pub proof fn lemma_offset_full(t: Seq<char>)
    ensures
        byte_offset(t, t.len() as int) == utf8_len(t),
{
    assert(t.take(t.len() as int) =~= t);
}

/// Byte offsets grow strictly with the character position.
pub proof fn lemma_offset_monotone(t: Seq<char>, i: int, j: int)
    requires
        0 <= i <= j <= t.len(),
    ensures
        byte_offset(t, i) <= byte_offset(t, j),
        i < j ==> byte_offset(t, i) < byte_offset(t, j),
        byte_offset(t, j) - byte_offset(t, i) <= 4 * (j - i),
        byte_offset(t, j) - byte_offset(t, i) >= j - i,
    decreases j - i,
{
    if i < j {
        lemma_offset_monotone(t, i, j - 1);
        lemma_offset_step(t, j - 1);
    }
}

/// Two texts that agree on their first `k` characters agree on the offsets up to `k`.
pub proof fn lemma_offset_prefix(t1: Seq<char>, t2: Seq<char>, k: int)
    requires
        0 <= k <= t1.len(),
        0 <= k <= t2.len(),
        t1.subrange(0, k) == t2.subrange(0, k),
    ensures
        byte_offset(t1, k) == byte_offset(t2, k),
{
    assert(t1.take(k) =~= t2.take(k));
}

pub proof fn lemma_offset_unique(t: Seq<char>, i: int, j: int)
    requires
        0 <= i <= t.len(),
        0 <= j <= t.len(),
        byte_offset(t, i) == byte_offset(t, j),
    ensures
        i == j,
{
    if i < j {
        lemma_offset_monotone(t, i, j);
    } else if j < i {
        lemma_offset_monotone(t, j, i);
    }
}

pub proof fn lemma_offset_bounded(t: Seq<char>, k: int)
    requires
        0 <= k <= t.len(),
    ensures
        byte_offset(t, k) <= utf8_len(t),
{
    lemma_offset_monotone(t, k, t.len() as int);
    lemma_offset_full(t);
}

/// `utf8_len` counts the bytes of vstd's UTF-8 encoding of the text, which
/// is what `str::len` returns.
pub proof fn lemma_utf8_len_is_encoding_len(s: Seq<char>)
    ensures
        utf8_len(s) == encode_utf8(s).len(),
    decreases s.len(),
{
    if s.len() > 0 {
        lemma_utf8_len_is_encoding_len(s.drop_last());
        lemma_encode_utf8_push(s.drop_last(), s.last());
        assert(s.drop_last().push(s.last()) =~= s);
    }
}

proof fn lemma_encode_utf8_push(s: Seq<char>, c: char)
    ensures
        encode_utf8(s.push(c)).len() == encode_utf8(s).len() + char_width(c),
    decreases s.len(),
{
    let sc = s.push(c);
    if s.len() == 0 {
        assert(sc.drop_first() =~= Seq::<char>::empty());
        assert(encode_utf8(sc.drop_first()).len() == 0);
        assert(encode_utf8(s).len() == 0);
        assert(sc[0] == c);
        lemma_scalar_width(c);
    } else {
        assert(sc.drop_first() =~= s.drop_first().push(c));
        assert(sc[0] == s[0]);
        lemma_encode_utf8_push(s.drop_first(), c);
    }
}

proof fn lemma_scalar_width(c: char)
    ensures
        encode_scalar(c as u32).len() == char_width(c),
{
    char_is_scalar(c);
}

pub proof fn lemma_utf8_len_concat(a: Seq<char>, b: Seq<char>)
    ensures
        utf8_len(a + b) == utf8_len(a) + utf8_len(b),
    decreases b.len(),
{
    if b.len() == 0 {
        assert(a + b =~= a);
    } else {
        assert((a + b).drop_last() =~= a + b.drop_last());
        lemma_utf8_len_concat(a, b.drop_last());
    }
}

/// The byte offset of `k` plus the bytes after it make up the whole text.
pub proof fn lemma_offset_split(t: Seq<char>, k: int)
    requires
        0 <= k <= t.len(),
    ensures
        byte_offset(t, k) + utf8_len(t.subrange(k, t.len() as int)) == utf8_len(t),
{
    assert(t =~= t.take(k) + t.subrange(k, t.len() as int));
    lemma_utf8_len_concat(t.take(k), t.subrange(k, t.len() as int));
}

/// A text has at most as many characters as bytes.
pub proof fn lemma_len_le_utf8_len(t: Seq<char>)
    ensures
        t.len() <= utf8_len(t),
{
    lemma_offset_monotone(t, 0, t.len() as int);
    lemma_offset_zero(t);
    lemma_offset_full(t);
}

// ---------------------------------------------------------------------------
// Rows and columns
// ---------------------------------------------------------------------------

pub proof fn lemma_row_monotone(t: Seq<char>, i: int, j: int)
    requires
        0 <= i <= j,
    ensures
        row_of(t, i) <= row_of(t, j),
        row_of(t, j) - row_of(t, i) <= j - i,
    decreases j - i,
{
    if i < j {
        lemma_row_monotone(t, i, j - 1);
    }
}

/// Between two positions of the same row there is no newline, and the
/// column grows by one per character.
pub proof fn lemma_same_row(t: Seq<char>, i: int, j: int)
    requires
        0 <= i <= j <= t.len(),
        row_of(t, i) == row_of(t, j),
    ensures
        forall|m: int| i <= m < j ==> t[m] != '\n',
        col_of(t, j) == col_of(t, i) + (j - i),
    decreases j - i,
{
    if i < j {
        lemma_row_monotone(t, i, j - 1);
        assert(row_of(t, j - 1) == row_of(t, j)) by {
            lemma_row_monotone(t, j - 1, j);
        }
        assert(t[j - 1] != '\n');
        lemma_same_row(t, i, j - 1);
    }
}

/// Every row up to `row_of(t, j)` is the row of some position before `j`.
pub proof fn lemma_row_reached(t: Seq<char>, r: nat, j: int)
    requires
        0 <= j <= t.len(),
        r <= row_of(t, j),
    ensures
        exists|k: int| 0 <= k <= j && #[trigger] row_of(t, k) == r,
    decreases j,
{
    if row_of(t, j) == r {
        assert(row_of(t, j) == r);
    } else {
        assert(j > 0);
        lemma_row_reached(t, r, j - 1);
        let k = choose|k: int| 0 <= k <= j - 1 && #[trigger] row_of(t, k) == r;
        assert(row_of(t, k) == r);
    }
}

/// A position in row `r` has a start of row `r` at or before it.
pub proof fn lemma_row_start_exists(t: Seq<char>, k: int)
    requires
        0 <= k <= t.len(),
    ensures
        is_row_start(t, row_of(t, k), row_start(t, row_of(t, k))),
        row_start(t, row_of(t, k)) <= k,
        col_of(t, k) == k - row_start(t, row_of(t, k)),
    decreases k,
{
    let r = row_of(t, k);
    if k == 0 || t[k - 1] == '\n' {
        assert(is_row_start(t, r, k));
        let s = row_start(t, r);
        lemma_row_start_unique(t, r, s, k);
    } else {
        lemma_row_start_exists(t, k - 1);
    }
}

/// A position in row `r` has an end of row `r` at or after it.
pub proof fn lemma_row_end_exists(t: Seq<char>, k: int)
    requires
        0 <= k <= t.len(),
    ensures
        is_row_end(t, row_of(t, k), row_end(t, row_of(t, k))),
        k <= row_end(t, row_of(t, k)),
    decreases t.len() - k,
{
    let r = row_of(t, k);
    if k == t.len() || t[k] == '\n' {
        assert(is_row_end(t, r, k));
        let e = row_end(t, r);
        lemma_row_end_unique(t, r, e, k);
    } else {
        assert(row_of(t, k + 1) == r);
        lemma_row_end_exists(t, k + 1);
    }
}

pub proof fn lemma_row_start_unique(t: Seq<char>, r: nat, s1: int, s2: int)
    requires
        is_row_start(t, r, s1),
        is_row_start(t, r, s2),
    ensures
        s1 == s2,
{
    if s1 < s2 {
        lemma_same_row(t, s1, s2);
    } else if s2 < s1 {
        lemma_same_row(t, s2, s1);
    }
}

pub proof fn lemma_row_end_unique(t: Seq<char>, r: nat, e1: int, e2: int)
    requires
        is_row_end(t, r, e1),
        is_row_end(t, r, e2),
    ensures
        e1 == e2,
{
    if e1 < e2 {
        lemma_same_row(t, e1, e2);
    } else if e2 < e1 {
        lemma_same_row(t, e2, e1);
    }
}

/// The start and end of every row of the text exist, and the start is not
/// after the end.
pub proof fn lemma_row_bounds(t: Seq<char>, r: nat)
    requires
        r <= newline_count(t),
    ensures
        is_row_start(t, r, row_start(t, r)),
        is_row_end(t, r, row_end(t, r)),
        row_start(t, r) <= row_end(t, r),
        col_of(t, row_end(t, r)) == row_end(t, r) - row_start(t, r),
{
    lemma_row_reached(t, r, t.len() as int);
    let k = choose|k: int| 0 <= k <= t.len() && #[trigger] row_of(t, k) == r;
    lemma_row_start_exists(t, k);
    lemma_row_end_exists(t, k);
    lemma_row_start_exists(t, row_end(t, r));
}

/// A position of row `r` whose column is at most `c`, and that is either at
/// column `c` or at the end of its row, is `index_at(t, r, c)`.
pub proof fn lemma_index_at_char(t: Seq<char>, r: nat, c: nat, k: int)
    requires
        0 <= k <= t.len(),
        row_of(t, k) == r,
        col_of(t, k) <= c,
        col_of(t, k) == c || k == t.len() || t[k] == '\n',
    ensures
        index_at(t, r, c) == k,
{
    lemma_row_monotone(t, k, t.len() as int);
    lemma_row_bounds(t, r);
    lemma_row_start_exists(t, k);
    lemma_row_end_exists(t, k);
    if col_of(t, k) != c {
        assert(is_row_end(t, r, k));
        lemma_row_end_unique(t, r, k, row_end(t, r));
    }
}

/// Every row up to the number of newlines is at most the line count.
pub proof fn lemma_line_count_ge_rows(t: Seq<char>)
    ensures
        newline_count(t) <= line_count(t),
{
}

/// A text has at most as many lines as characters.
pub proof fn lemma_line_count_bounded(t: Seq<char>)
    ensures
        line_count(t) <= t.len(),
{
    if t.len() > 0 && t.last() != '\n' {
        lemma_row_monotone(t, 0, t.len() - 1);
    } else {
        lemma_row_monotone(t, 0, t.len() as int);
    }
}

/// `index_at` is a position of the text.
pub proof fn lemma_index_at_bounded(t: Seq<char>, r: nat, c: nat)
    ensures
        0 <= index_at(t, r, c) <= t.len(),
{
    if r <= newline_count(t) {
        lemma_row_bounds(t, r);
    }
}

/// `index_at(t, a, c)` lies on row `a`, at column `c` or at the end of the
/// row when the row is shorter.
pub proof fn lemma_index_at_position(t: Seq<char>, a: nat, c: nat)
    requires
        a <= newline_count(t),
    ensures
        0 <= index_at(t, a, c) <= t.len(),
        row_of(t, index_at(t, a, c)) == a,
        col_of(t, index_at(t, a, c)) == if c <= col_of(t, row_end(t, a)) {
            c
        } else {
            col_of(t, row_end(t, a))
        },
{
    lemma_row_bounds(t, a);
    let s = row_start(t, a);
    let e = row_end(t, a);
    let k = index_at(t, a, c);
    lemma_row_monotone(t, s, k);
    lemma_row_monotone(t, k, e);
    lemma_row_start_exists(t, k);
    lemma_row_start_unique(t, a, s, row_start(t, row_of(t, k)));
}

/// Going from a position to its row and column and back gives the position.
pub proof fn lemma_index_at_row_col(t: Seq<char>, k: int)
    requires
        0 <= k <= t.len(),
    ensures
        index_at(t, row_of(t, k), col_of(t, k)) == k,
{
    lemma_index_at_char(t, row_of(t, k), col_of(t, k), k);
}


// ---------------------------------------------------------------------------
// Executable operations on texts held as vectors of characters
// ---------------------------------------------------------------------------

/// Appends `c` to `s`: `String::push`.
#[verifier::external_body]
pub(crate) fn push_char(s: &mut String, c: char)
    ensures
        final(s)@ == old(s)@.push(c),
{
    s.push(c)
}

/// Number of bytes that `c` takes in UTF-8 (`char::len_utf8`).
pub fn char_width_of(c: char) -> (w: usize)
    ensures
        w == char_width(c),
        1 <= w <= 4,
{
    let u = c as u32;
    if u < 0x80 {
        1
    } else if u < 0x800 {
        2
    } else if u < 0x10000 {
        3
    } else {
        4
    }
}

/// The characters of `s`, in order.
pub fn chars_of(s: &String) -> (v: Vec<char>)
    ensures
        v@ == s@,
{
    broadcast use vstd::string::group_string_axioms;

    let mut v: Vec<char> = Vec::new();
    let mut it = s.as_str().chars();
    assert(v@ + IteratorSpec::remaining(&it) =~= s@);
    loop
        invariant
            v@ + IteratorSpec::remaining(&it) == s@,
            IteratorSpec::obeys_prophetic_iter_laws(&it),
            IteratorSpec::decrease(&it) is Some,
        ensures
            v@ == s@,
        decreases IteratorSpec::decrease(&it)->0,
    {
        let ghost before = IteratorSpec::remaining(&it);
        match it.next() {
            Some(c) => {
                v.push(c);
                assert(v@ + IteratorSpec::remaining(&it) =~= s@) by {
                    assert(before =~= seq![c] + before.drop_first());
                }
            },
            None => {
                assert(v@ =~= s@);
                break ;
            },
        }
    }
    v
}

/// The characters of `t` from position `from` to position `to`, as a string.
pub fn string_of(t: &Vec<char>, from: usize, to: usize) -> (s: String)
    requires
        from <= to <= t.len(),
    ensures
        s@ == t@.subrange(from as int, to as int),
{
    let mut s = String::new();
    let mut i = from;
    while i < to
        invariant
            from <= i <= to <= t.len(),
            s@ == t@.subrange(from as int, i as int),
        decreases to - i,
    {
        push_char(&mut s, t[i]);
        i = i + 1;
        assert(s@ =~= t@.subrange(from as int, i as int));
    }
    s
}

/// The row and the column of position `k`.
pub fn row_col(t: &Vec<char>, k: usize) -> (res: (usize, usize))
    requires
        k <= t.len(),
    ensures
        res.0 == row_of(t@, k as int),
        res.1 == col_of(t@, k as int),
{
    let mut i: usize = 0;
    let mut row: usize = 0;
    let mut col: usize = 0;
    while i < k
        invariant
            i <= k <= t.len(),
            row == row_of(t@, i as int),
            col == col_of(t@, i as int),
            row <= i,
            col <= i,
        decreases k - i,
    {
        if t[i] == '\n' {
            row = row + 1;
            col = 0;
        } else {
            col = col + 1;
        }
        i = i + 1;
    }
    (row, col)
}

/// `index_at`: the position at column `c` of row `r`, clamped to the row's end.
pub fn index_at_exec(t: &Vec<char>, r: usize, c: usize) -> (k: usize)
    ensures
        k == index_at(t@, r as nat, c as nat),
{
    let n = t.len();
    let mut i: usize = 0;
    let mut row: usize = 0;
    let mut col: usize = 0;
    loop
        invariant
            n == t@.len(),
            i <= n,
            row == row_of(t@, i as int),
            col == col_of(t@, i as int),
            row <= r,
            row == r ==> col <= c,
            col <= i,
        decreases n - i,
    {
        if row == r && (col == c || i == n || t[i] == '\n') {
            proof {
                lemma_index_at_char(t@, r as nat, c as nat, i as int);
            }
            return i;
        }
        if i == n {
            return n;
        }
        if t[i] == '\n' {
            row = row + 1;
            col = 0;
        } else {
            col = col + 1;
        }
        i = i + 1;
    }
}

/// `line_count`: the number of lines that `str::lines` yields.
pub fn line_count_exec(t: &Vec<char>) -> (n: usize)
    ensures
        n == line_count(t@),
{
    let len = t.len();
    let (rows, _) = row_col(t, len);
    if len > 0 && t[len - 1] != '\n' {
        proof {
            lemma_row_monotone(t@, 0, len - 1);
        }
        rows + 1
    } else {
        rows
    }
}

/// The length of line `r` as `str::lines` yields it, if there is such a line.
pub fn line_len_exec(t: &Vec<char>, r: usize) -> (res: Option<usize>)
    ensures
        r < line_count(t@) ==> res == Some(line_len(t@, r as nat) as usize),
        r >= line_count(t@) ==> res is None,
{
    let count = line_count_exec(t);
    if r >= count {
        return None;
    }
    proof {
        lemma_row_bounds(t@, r as nat);
    }
    let s = index_at_exec(t, r, 0);
    let e = index_at_exec(t, r, usize::MAX);
    if e < t.len() && e > s && t[e - 1] == '\r' {
        Some(e - s - 1)
    } else {
        Some(e - s)
    }
}

/// The position of the character at byte offset `b`, if `b` is a character boundary.
pub fn char_index_of_byte(t: &Vec<char>, b: usize) -> (res: Option<usize>)
    requires
        utf8_len(t@) <= usize::MAX,
    ensures
        res matches Some(k) ==> k <= t@.len() && byte_offset(t@, k as int) == b,
        res is None ==> !is_boundary(t@, b as int),
{
    let n = t.len();
    let mut i: usize = 0;
    let mut off: usize = 0;
    proof {
        lemma_offset_zero(t@);
    }
    while i < n && off < b
        invariant
            n == t@.len(),
            i <= n,
            off == byte_offset(t@, i as int),
            i > 0 ==> byte_offset(t@, i - 1) < b,
            utf8_len(t@) <= usize::MAX,
        decreases n - i,
    {
        proof {
            lemma_offset_step(t@, i as int);
            lemma_offset_bounded(t@, i + 1);
        }
        off = off + char_width_of(t[i]);
        i = i + 1;
    }
    if off == b {
        Some(i)
    } else {
        proof {
            assert forall|k: int| 0 <= k <= t@.len() implies #[trigger] byte_offset(t@, k) != b by {
                if k < i {
                    lemma_offset_monotone(t@, k, i - 1);
                } else {
                    lemma_offset_monotone(t@, i as int, k);
                }
            }
        }
        None
    }
}

/// The byte offset of position `k`.
pub fn byte_offset_exec(t: &Vec<char>, k: usize) -> (b: usize)
    requires
        k <= t.len(),
        utf8_len(t@) <= usize::MAX,
    ensures
        b == byte_offset(t@, k as int),
{
    let mut i: usize = 0;
    let mut off: usize = 0;
    proof {
        lemma_offset_zero(t@);
    }
    while i < k
        invariant
            k <= t@.len(),
            i <= k,
            off == byte_offset(t@, i as int),
            utf8_len(t@) <= usize::MAX,
        decreases k - i,
    {
        proof {
            lemma_offset_step(t@, i as int);
            lemma_offset_bounded(t@, i + 1);
        }
        off = off + char_width_of(t[i]);
        i = i + 1;
    }
    off
}

/// The first position at or after `k` that holds `c`.
pub fn find_forward(t: &Vec<char>, k: usize, c: char) -> (res: Option<usize>)
    requires
        k <= t.len(),
    ensures
        res matches Some(j) ==> k <= j < t@.len() && t@[j as int] == c && forall|m: int|
            k <= m < j ==> t@[m] != c,
        res is None ==> forall|m: int| k <= m < t@.len() ==> t@[m] != c,
{
    let mut i = k;
    while i < t.len()
        invariant
            k <= i <= t@.len(),
            forall|m: int| k <= m < i ==> t@[m] != c,
        decreases t@.len() - i,
    {
        if t[i] == c {
            return Some(i);
        }
        i = i + 1;
    }
    None
}

/// The last position before `k` that holds `c`.
pub fn find_backward(t: &Vec<char>, k: usize, c: char) -> (res: Option<usize>)
    requires
        k <= t.len(),
    ensures
        res matches Some(j) ==> j < k && t@[j as int] == c && forall|m: int| j < m < k ==> t@[m] != c,
        res is None ==> forall|m: int| 0 <= m < k ==> t@[m] != c,
{
    let mut i = k;
    while i > 0
        invariant
            i <= k <= t@.len(),
            forall|m: int| i <= m < k ==> t@[m] != c,
        decreases i,
    {
        if t[i - 1] == c {
            return Some(i - 1);
        }
        i = i - 1;
    }
    None
}

/// Removes the characters from position `from` up to position `to`.
pub fn remove_range(v: &mut Vec<char>, from: usize, to: usize)
    requires
        from <= to <= old(v).len(),
    ensures
        final(v)@ == old(v)@.subrange(0, from as int) + old(v)@.subrange(to as int, old(v)@.len() as int),
{
    let mut i = from;
    while i < to
        invariant
            from <= i <= to <= old(v)@.len(),
            v@ == old(v)@.subrange(0, from as int) + old(v)@.subrange(i as int, old(v)@.len() as int),
        decreases to - i,
    {
        v.remove(from);
        i = i + 1;
        assert(v@ =~= old(v)@.subrange(0, from as int) + old(v)@.subrange(i as int, old(v)@.len() as int));
    }
}

} // verus!
