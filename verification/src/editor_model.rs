//! The abstract state of the editor and what each editing operation does to
//! it. The executable editor in `editor` is proved to act exactly as these
//! functions say.

use vstd::prelude::*;
use crate::text::{lemma_offset_monotone, lemma_offset_step, lemma_utf8_len_push, lemma_index_at_position, lemma_row_bounds, lemma_line_count_bounded, lemma_len_le_utf8_len, newline_count, lemma_row_monotone, lemma_line_count_ge_rows, row_start, row_end, lemma_row_start_exists, lemma_row_end_exists, lemma_same_row, lemma_offset_unique, lemma_index_at_row_col, byte_offset, char_width, col_of, index_at, is_boundary, line_count, line_len, row_of, utf8_len};
use crate::snapshot_controller::{SnapshotModel, push_model, move_model};

verus! {

/// The editor as the proofs see it.
pub struct EditorModel {
    /// The text being edited.
    pub text: Seq<char>,
    /// The cursor as a character position in `text`.
    pub pos: nat,
    /// The cursor on screen: (column, visible row).
    pub cursor: (u16, u16),
    /// The selection as (origin, pivot) byte offsets, if one is open.
    pub window: Option<(usize, usize)>,
    /// Number of rows scrolled off the top of the screen.
    pub row_offset: nat,
    /// The messages of the status log, oldest first.
    pub log: Seq<Seq<char>>,
    /// The number of screen lines the status log is given.
    pub log_lines: u16,
    /// The undo history.
    pub snapshots: Seq<SnapshotModel>,
    /// Index of the current snapshot in the history.
    pub current: nat,
    /// Name of the file being edited.
    pub file_name: Seq<char>,
}

/// The status log after `message` is printed: once it holds `lines - 1`
/// messages the oldest one is dropped, then the new one goes last.
pub open spec fn print_model(log: Seq<Seq<char>>, lines: u16, message: Seq<char>) -> Seq<Seq<char>> {
    (if log.len() >= lines - 1 {
        log.drop_first()
    } else {
        log
    }).push(message)
}

/// `x` clamped to the range of `u16`.
pub open spec fn sat_u16(x: int) -> u16 {
    if x < 0 {
        0
    } else if x > u16::MAX {
        u16::MAX
    } else {
        x as u16
    }
}

/// Distance between two `u16` values.
pub open spec fn abs_diff(a: u16, b: u16) -> usize {
    if a >= b {
        (a - b) as usize
    } else {
        (b - a) as usize
    }
}

/// Where the cursor is drawn for position `k`: its column and its row below
/// the scroll offset, both saturated to `u16`.
pub open spec fn cursor_for(t: Seq<char>, k: nat, row_offset: nat) -> (u16, u16) {
    (sat_u16(col_of(t, k as int) as int), sat_u16(row_of(t, k as int) - row_offset))
}

/// The character position whose byte offset is `b`.
pub open spec fn char_pos_of(t: Seq<char>, b: int) -> int {
    choose|k: int| 0 <= k <= t.len() && byte_offset(t, k) == b
}

/// `j` is the first position at or after `k` that holds `c`.
pub open spec fn is_first_from(t: Seq<char>, k: int, c: char, j: int) -> bool {
    &&& k <= j < t.len()
    &&& t[j] == c
    &&& forall|m: int| k <= m < j ==> t[m] != c
}

/// The first position at or after `k` that holds `c`, if any.
pub open spec fn first_from(t: Seq<char>, k: int, c: char) -> Option<int> {
    if exists|j: int| is_first_from(t, k, c, j) {
        Some(choose|j: int| is_first_from(t, k, c, j))
    } else {
        None
    }
}

/// `j` is the last position before `k` that holds `c`.
pub open spec fn is_last_before(t: Seq<char>, k: int, c: char, j: int) -> bool {
    &&& 0 <= j < k
    &&& t[j] == c
    &&& forall|m: int| j < m < k ==> t[m] != c
}

/// The last position before `k` that holds `c`, if any.
pub open spec fn last_before(t: Seq<char>, k: int, c: char) -> Option<int> {
    if exists|j: int| is_last_before(t, k, c, j) {
        Some(choose|j: int| is_last_before(t, k, c, j))
    } else {
        None
    }
}

/// The character position of the byte offset of `k` is `k`.
pub proof fn lemma_char_pos_of_offset(t: Seq<char>, k: int)
    requires
        0 <= k <= t.len(),
    ensures
        char_pos_of(t, byte_offset(t, k) as int) == k,
{
    let b = byte_offset(t, k) as int;
    assert(0 <= k <= t.len() && byte_offset(t, k) == b);
    let k2 = char_pos_of(t, b);
    lemma_offset_unique(t, k, k2);
}

pub proof fn lemma_first_unique(t: Seq<char>, k: int, c: char, j: int)
    requires
        is_first_from(t, k, c, j),
    ensures
        first_from(t, k, c) == Some(j),
{
    let j2 = choose|j: int| is_first_from(t, k, c, j);
    assert(is_first_from(t, k, c, j2));
    if j2 < j {
        assert(t[j2] != c);
    } else if j < j2 {
        assert(t[j] != c);
    }
}

pub proof fn lemma_last_unique(t: Seq<char>, k: int, c: char, j: int)
    requires
        is_last_before(t, k, c, j),
    ensures
        last_before(t, k, c) == Some(j),
{
    let j2 = choose|j: int| is_last_before(t, k, c, j);
    assert(is_last_before(t, k, c, j2));
    if j2 < j {
        assert(t[j] != c);
    } else if j < j2 {
        assert(t[j2] != c);
    }
}

/// The decimal digits of `n`.
pub open spec fn decimal(n: nat) -> Seq<char>
    decreases n,
{
    if n < 10 {
        seq![digit_char(n)]
    } else {
        decimal(n / 10).push(digit_char(n % 10))
    }
}

/// The character of the decimal digit `d`.
pub open spec fn digit_char(d: nat) -> char {
    ((48 + d) as u32) as char
}

/// The message that records where the cursor stands.
pub open spec fn positions_message(cursor: (u16, u16), byte_pos: nat) -> Seq<char> {
    "Cursor position: ("@ + decimal(cursor.0 as nat) + ", "@ + decimal(cursor.1 as nat)
        + ") | Buffer position: "@ + decimal(byte_pos)
}

impl EditorModel {
    /// The cursor as a byte offset into the text.
    pub open spec fn byte_pos(self) -> nat {
        byte_offset(self.text, self.pos as int)
    }

    /// What every editor state satisfies, but for the text being saved in
    /// the history.
    pub open spec fn wf_unsaved(self) -> bool {
        &&& self.pos <= self.text.len()
        &&& utf8_len(self.text) <= isize::MAX
        &&& self.row_offset <= isize::MAX
        &&& self.log_lines == 5
        &&& self.log.len() <= 4
        &&& self.current < self.snapshots.len() <= usize::MAX
        &&& forall|i: int|
            0 <= i < self.snapshots.len() ==> utf8_len(#[trigger] self.snapshots[i].0) <= isize::MAX
    }

    /// What every editor state satisfies: the text is the current snapshot.
    pub open spec fn wf(self) -> bool {
        &&& self.wf_unsaved()
        &&& self.snapshots[self.current as int].0 == self.text
    }

    /// Both ends of the selection, if there is one, fall on character
    /// boundaries of the text (they may not, after an undo or redo).
    pub open spec fn selection_ok(self) -> bool {
        match self.window {
            None => true,
            Some(w) => is_boundary(self.text, w.0 as int) && is_boundary(self.text, w.1 as int),
        }
    }

    /// The text with the selection cut out, and the position where it was.
    pub open spec fn selection_removed(self) -> (Seq<char>, nat) {
        match self.window {
            None => (self.text, self.pos),
            Some(w) => {
                let left = if w.0 <= w.1 { w.0 } else { w.1 };
                let right = if w.0 <= w.1 { w.1 } else { w.0 };
                let l = char_pos_of(self.text, left as int);
                let r = char_pos_of(self.text, right as int);
                (self.text.subrange(0, l) + self.text.subrange(r, self.text.len() as int), l as nat)
            },
        }
    }

    /// A character can be inserted: the selection is in bounds and the text
    /// stays within the size a string can have.
    pub open spec fn can_insert(self, c: char) -> bool {
        &&& self.selection_ok()
        &&& utf8_len(self.selection_removed().0) + char_width(c) <= isize::MAX
    }

    /// The cursor recomputed from the position.
    pub open spec fn cursor_synced(self) -> Self {
        EditorModel { cursor: cursor_for(self.text, self.pos, self.row_offset), ..self }
    }

    /// The position recomputed from the cursor.
    pub open spec fn pos_synced(self) -> Self {
        EditorModel {
            pos: index_at(self.text, (self.cursor.1 as nat + self.row_offset) as nat, self.cursor.0 as nat) as nat,
            ..self
        }
    }

    /// The text and cursor pushed onto the undo history.
    pub open spec fn snapshot_saved(self) -> Self {
        let h = push_model(self.snapshots, self.current, (self.text, self.cursor));
        EditorModel { snapshots: h.0, current: h.1, ..self }
    }

    /// Typing `c`: the selection is replaced by `c`, or `c` goes in at the
    /// cursor, which then stands after it.
    pub open spec fn insert_char(self, c: char) -> Self {
        let (t, k) = self.selection_removed();
        EditorModel { text: t.insert(k as int, c), pos: k + 1, window: None, ..self }.cursor_synced().snapshot_saved()
    }

    /// Backspace: the selection is cut out, or the character before the
    /// cursor; at the start of the text with no selection nothing happens.
    pub open spec fn delete_char(self) -> Self {
        match self.window {
            None => if self.pos == 0 {
                self
            } else {
                EditorModel {
                    text: self.text.remove(self.pos - 1),
                    pos: (self.pos - 1) as nat,
                    ..self
                }.cursor_synced().snapshot_saved()
            },
            Some(_) => {
                let (t, k) = self.selection_removed();
                EditorModel { text: t, pos: k, window: None, ..self }.cursor_synced().snapshot_saved()
            },
        }
    }

    /// The editor after moving the history pointer by `n` and restoring that snapshot.
    pub open spec fn restore(self, n: int) -> Self {
        let cur = move_model(self.snapshots.len(), self.current, n);
        let s = self.snapshots[cur as int];
        EditorModel { current: cur, text: s.0, cursor: s.1, ..self }.pos_synced()
    }

    pub open spec fn undo(self) -> Self {
        self.restore(-1)
    }

    pub open spec fn redo(self) -> Self {
        self.restore(1)
    }

    /// Moving the cursor by `n` characters within its row: it stops at the
    /// row's end (its newline, or the end of the text) and at the row's
    /// start. Also the distance between the old and the new screen column.
    pub open spec fn move_cols(self, n: isize) -> (Self, usize) {
        let r = row_of(self.text, self.pos as int);
        let start = row_start(self.text, r);
        let end = row_end(self.text, r);
        let k = if n > 0 {
            if self.pos + n <= end {
                self.pos + n
            } else {
                end
            }
        } else {
            if self.pos + n >= start {
                self.pos + n
            } else {
                start
            }
        };
        let m = EditorModel { pos: k as nat, ..self }.cursor_synced();
        (m, abs_diff(self.cursor.0, m.cursor.0))
    }

    /// Moving the cursor by `n` rows: the row is clamped to the last line, the
    /// column to the length of the target line; also the distance between the
    /// old and the new screen row. Rows are computed in `u16` as the
    /// executable code does.
    pub open spec fn move_rows(self, n: i16) -> (Self, usize) {
        let col = self.cursor.0;
        let row = self.cursor.1;
        let lc = line_count(self.text);
        if lc == 0 {
            (EditorModel { pos: 0, cursor: (0, 0), ..self }, 0)
        } else {
            let max_abs = ((lc - 1) as usize) as u16;
            let ro = (self.row_offset as usize) as u16;
            let abs = sat_u16(row + ro);
            let target = sat_u16(abs + n);
            let fin = if target > max_abs {
                max_abs
            } else {
                target
            };
            let new_row = sat_u16(fin - ro);
            let new_col = if fin < lc && ((line_len(self.text, fin as nat) as usize) as u16) < col {
                (line_len(self.text, fin as nat) as usize) as u16
            } else {
                col
            };
            let m = EditorModel { cursor: (new_col, new_row), ..self }.pos_synced();
            (m, abs_diff(row, new_row))
        }
    }

    /// Moving to the start of the next line, or adding a line at the end of
    /// the text when there is no next line.
    pub open spec fn move_next_line(self) -> Self {
        match first_from(self.text, self.pos as int, '\n') {
            Some(j) => EditorModel { pos: (j + 1) as nat, ..self }.cursor_synced(),
            None => self.insert_char('\n'),
        }
    }

    /// The selection after the cursor moved from byte offset `from`: it keeps
    /// its origin, or starts at `from`, and ends at the cursor.
    pub open spec fn dragged(self, from: nat, old_window: Option<(usize, usize)>) -> Self {
        let origin = match old_window {
            Some(w) => w.0,
            None => from as usize,
        };
        EditorModel { window: Some((origin, self.byte_pos() as usize)), ..self }
    }

    pub open spec fn drag_cols(self, n: isize) -> (Self, usize) {
        let (m, moved) = self.move_cols(n);
        (m.dragged(self.byte_pos(), self.window), moved)
    }

    pub open spec fn drag_rows(self, n: i16) -> (Self, usize) {
        let (m, moved) = self.move_rows(n);
        (m.dragged(self.byte_pos(), self.window), moved)
    }

    /// Selecting up to the next space, or to the end of the text.
    pub open spec fn snap_drag_right(self) -> Self {
        match first_from(self.text, self.pos as int, ' ') {
            Some(j) => self.drag_cols((j - self.pos) as isize).0,
            None => self.drag_cols(isize::MAX).0,
        }
    }

    /// Selecting back to the previous space; nothing when there is none.
    pub open spec fn snap_drag_left(self) -> Self {
        match last_before(self.text, self.pos as int, ' ') {
            Some(j) => self.drag_cols((-(self.pos - j)) as isize).0,
            None => self,
        }
    }

    /// Byte offset of the first `c` at or after the cursor.
    pub open spec fn next_char_pos(self, c: char) -> Option<usize> {
        match first_from(self.text, self.pos as int, c) {
            Some(j) => Some(byte_offset(self.text, j) as usize),
            None => None,
        }
    }

    /// Byte offset of the last `c` before the cursor.
    pub open spec fn last_char_pos(self, c: char) -> Option<usize> {
        match last_before(self.text, self.pos as int, c) {
            Some(j) => Some(byte_offset(self.text, j) as usize),
            None => None,
        }
    }

    /// Scrolling down by `rows`, at most to the number of lines.
    pub open spec fn page_down(self, rows: u16) -> Self {
        let ro: nat = self.row_offset + rows as nat;
        let lc = line_count(self.text);
        EditorModel { row_offset: if ro > lc { lc } else { ro }, ..self }.pos_synced()
    }

    /// Scrolling up by `rows`, at least to the top.
    pub open spec fn page_up(self, rows: u16) -> Self {
        let ro: nat = if self.row_offset >= rows { (self.row_offset - rows) as nat } else { 0 };
        let lc = line_count(self.text);
        EditorModel { row_offset: if ro > lc { lc } else { ro }, ..self }.pos_synced()
    }

    pub open spec fn close_select_window(self) -> Self {
        EditorModel { window: None, ..self }
    }

    pub open spec fn log_message(self, message: Seq<char>) -> Self {
        EditorModel { log: print_model(self.log, self.log_lines, message), ..self }
    }

    /// The status log records the cursor and the byte position.
    pub open spec fn log_positions(self) -> Self {
        self.log_message(positions_message(self.cursor, self.byte_pos()))
    }
}


// ---------------------------------------------------------------------------
// Laws
// ---------------------------------------------------------------------------

/// A log that holds at most `lines - 1` messages still does after a print,
/// and the printed message is the newest.
pub proof fn law_print_keeps_log_bounded(log: Seq<Seq<char>>, lines: u16, message: Seq<char>)
    requires
        lines >= 2,
        log.len() <= lines - 1,
    ensures
        print_model(log, lines, message).len() <= lines - 1,
        print_model(log, lines, message).last() == message,
{
}

/// Undo right after typing a character gives back the text as it was
/// before, and the history pointer where it was.
pub proof fn law_undo_after_insert(m: EditorModel, c: char)
    requires
        m.wf(),
    ensures
        m.insert_char(c).undo().text == m.text,
        m.insert_char(c).undo().current == m.current,
{
}

/// Undo right after a backspace that changed something gives back the text
/// as it was before.
pub proof fn law_undo_after_delete(m: EditorModel)
    requires
        m.wf(),
        !(m.window is None && m.pos == 0),
    ensures
        m.delete_char().undo().text == m.text,
        m.delete_char().undo().current == m.current,
{
}

/// Redo right after undoing a typed character gives back the text with the
/// character.
pub proof fn law_redo_after_undo(m: EditorModel, c: char)
    requires
        m.wf(),
    ensures
        m.insert_char(c).undo().redo().text == m.insert_char(c).text,
        m.insert_char(c).undo().redo().current == m.insert_char(c).current,
{
}

/// Typing a character and then deleting it (with no selection open) gives
/// back the text and the cursor position.
pub proof fn law_delete_after_insert(m: EditorModel, c: char)
    requires
        m.wf(),
        m.window is None,
    ensures
        m.insert_char(c).delete_char().text == m.text,
        m.insert_char(c).delete_char().pos == m.pos,
{
    assert(m.text.insert(m.pos as int, c).remove(m.pos as int) =~= m.text);
}

/// Putting the cursor on screen and then finding the position it marks
/// gives back the position, as long as its row and column fit the screen
/// coordinates.
pub proof fn law_cursor_round_trip(m: EditorModel)
    requires
        m.pos <= m.text.len(),
        col_of(m.text, m.pos as int) <= u16::MAX,
        m.row_offset <= row_of(m.text, m.pos as int) <= m.row_offset + u16::MAX,
    ensures
        m.cursor_synced().pos_synced().pos == m.pos,
{
    lemma_index_at_row_col(m.text, m.pos as int);
}

/// Moving to the next line, when a newline follows the cursor, puts the
/// cursor at the first column of the row below, without touching the text.
pub proof fn law_move_next_line_starts_row(m: EditorModel)
    requires
        m.wf(),
        first_from(m.text, m.pos as int, '\n') is Some,
    ensures
        m.move_next_line().cursor.0 == 0,
        row_of(m.move_next_line().text, m.move_next_line().pos as int) == row_of(
            m.text,
            m.pos as int,
        ) + 1,
        m.move_next_line().text == m.text,
{
    let j = first_from(m.text, m.pos as int, '\n')->0;
    assert(is_first_from(m.text, m.pos as int, '\n', j)) by {
        assert(exists|j: int| is_first_from(m.text, m.pos as int, '\n', j));
    }
    lemma_no_newline_same_row(m.text, m.pos as int, j);
}

/// Positions with no newline between them are on the same row.
proof fn lemma_no_newline_same_row(t: Seq<char>, i: int, j: int)
    requires
        0 <= i <= j <= t.len(),
        forall|m: int| i <= m < j ==> t[m] != '\n',
    ensures
        row_of(t, j) == row_of(t, i),
    decreases j - i,
{
    if i < j {
        lemma_no_newline_same_row(t, i, j - 1);
    }
}

/// Moving by columns keeps the cursor on its row and leaves the text alone.
pub proof fn law_move_cols_stays_in_row(m: EditorModel, n: isize)
    requires
        m.wf(),
    ensures
        row_of(m.text, m.move_cols(n).0.pos as int) == row_of(m.text, m.pos as int),
        m.move_cols(n).0.text == m.text,
        row_start(m.text, row_of(m.text, m.pos as int)) <= m.move_cols(n).0.pos <= row_end(
            m.text,
            row_of(m.text, m.pos as int),
        ),
{
    let t = m.text;
    let k = m.pos as int;
    lemma_row_start_exists(t, k);
    lemma_row_end_exists(t, k);
    let r = row_of(t, k);
    let s = row_start(t, r);
    let e = row_end(t, r);
    let k2 = m.move_cols(n).0.pos as int;
    lemma_row_monotone(t, s, k2);
    lemma_row_monotone(t, k2, e);
}

/// With the cursor drawn where the position is, and a row short enough for
/// screen columns, moving by columns keeps the screen row and reports a
/// distance of at most `|n|`.
pub proof fn law_move_cols_moves_at_most_n(m: EditorModel, n: isize)
    requires
        m.wf(),
        m.cursor == cursor_for(m.text, m.pos, m.row_offset),
        col_of(m.text, row_end(m.text, row_of(m.text, m.pos as int))) <= u16::MAX,
    ensures
        m.move_cols(n).1 <= if n >= 0 { n as int } else { -n },
        m.move_cols(n).0.cursor.1 == m.cursor.1,
{
    let t = m.text;
    let k = m.pos as int;
    law_move_cols_stays_in_row(m, n);
    lemma_row_start_exists(t, k);
    lemma_row_end_exists(t, k);
    let k2 = m.move_cols(n).0.pos as int;
    lemma_row_start_exists(t, k2);
    lemma_row_start_exists(t, row_end(t, row_of(t, k)));
}

/// Moving right by `n` columns and back by `n` returns to the same position
/// when the row is long enough.
pub proof fn law_move_cols_back(m: EditorModel, n: isize)
    requires
        m.wf(),
        n > 0,
        m.pos + n <= row_end(m.text, row_of(m.text, m.pos as int)),
    ensures
        m.move_cols(n).0.move_cols((-n) as isize).0.pos == m.pos,
        m.move_cols(n).0.move_cols((-n) as isize).0.text == m.text,
{
    law_move_cols_stays_in_row(m, n);
    lemma_row_start_exists(m.text, m.pos as int);
}

/// Re-syncing the position from a cursor that was just computed from it
/// (scrolling by zero rows) keeps the position, as long as the cursor's row
/// and column fit the screen coordinates.
pub proof fn law_scroll_zero_keeps_position(m: EditorModel, n: isize)
    requires
        m.wf(),
        col_of(m.text, m.move_cols(n).0.pos as int) <= u16::MAX,
        m.row_offset <= row_of(m.text, m.move_cols(n).0.pos as int) <= m.row_offset + u16::MAX,
    ensures
        m.move_cols(n).0.page_down(0).pos == m.move_cols(n).0.pos,
{
    let m1 = m.move_cols(n).0;
    law_move_cols_stays_in_row(m, n);
    lemma_row_end_exists(m.text, m.pos as int);
    lemma_row_end_exists(m.text, m1.pos as int);
    lemma_row_monotone(m.text, m1.pos as int, m.text.len() as int);
    lemma_line_count_ge_rows(m.text);
    lemma_index_at_row_col(m.text, m1.pos as int);
}


/// The cursor on screen marks this position: row `cursor.1 + row_offset`,
/// at column `cursor.0` or at the end of that row when it is shorter; the end
/// of the text when there is no such row.
pub open spec fn at_cursor(m: EditorModel) -> bool {
    let a = m.cursor.1 + m.row_offset;
    if a <= newline_count(m.text) {
        let end_col = col_of(m.text, row_end(m.text, a as nat));
        &&& row_of(m.text, m.pos as int) == a
        &&& col_of(m.text, m.pos as int) == if m.cursor.0 <= end_col { m.cursor.0 as nat } else { end_col }
    } else {
        m.pos == m.text.len()
    }
}

/// The origin a drag gives the selection: the open selection's origin, or
/// where the cursor was.
pub open spec fn drag_origin(m: EditorModel) -> usize {
    match m.window {
        Some(w) => w.0,
        None => m.byte_pos() as usize,
    }
}

/// After scrolling up, the cursor stays where it is on screen and the
/// position follows it: it is the position the cursor marks with the new
/// scroll offset, which went up by `rows`, at least to the top.
pub proof fn law_page_up_follows_cursor(m: EditorModel, rows: u16)
    requires
        m.wf(),
    ensures
        m.page_up(rows).text == m.text,
        m.page_up(rows).cursor == m.cursor,
        m.page_up(rows).window == m.window,
        m.page_up(rows).row_offset <= m.row_offset,
        m.page_up(rows).row_offset <= line_count(m.text),
        rows <= m.row_offset <= line_count(m.text) ==> m.page_up(rows).row_offset == m.row_offset - rows,
        rows > m.row_offset ==> m.page_up(rows).row_offset == 0,
        at_cursor(m.page_up(rows)),
{
    lemma_cursor_marks(m.page_up(rows));
}

/// After scrolling down, the cursor stays where it is on screen and the
/// position follows it: it is the position the cursor marks with the new
/// scroll offset, which went down by `rows`, at most to the line count.
pub proof fn law_page_down_follows_cursor(m: EditorModel, rows: u16)
    requires
        m.wf(),
    ensures
        m.page_down(rows).text == m.text,
        m.page_down(rows).cursor == m.cursor,
        m.page_down(rows).window == m.window,
        m.page_down(rows).row_offset <= line_count(m.text),
        m.row_offset + rows <= line_count(m.text) ==> m.page_down(rows).row_offset == m.row_offset + rows,
        m.row_offset + rows > line_count(m.text) ==> m.page_down(rows).row_offset == line_count(m.text),
        at_cursor(m.page_down(rows)),
{
    lemma_cursor_marks(m.page_down(rows));
}

/// Syncing the position from the cursor puts it where the cursor points.
proof fn lemma_cursor_marks(m: EditorModel)
    requires
        m == m.pos_synced(),
    ensures
        at_cursor(m),
{
    let a = (m.cursor.1 + m.row_offset) as nat;
    if a <= newline_count(m.text) {
        lemma_index_at_position(m.text, a, m.cursor.0 as nat);
    }
}

/// Moving by rows, with the cursor drawn where the position is, below the
/// scroll offset, and a text short enough for screen coordinates: the
/// position lands on row `row + n` clamped to the lines of the text (and not
/// above the scroll offset), at the same column or at the end of that line
/// (not counting a carriage return before its newline); the result is the
/// number of rows moved.
pub proof fn law_move_rows_target(m: EditorModel, n: i16)
    requires
        m.wf(),
        m.cursor == cursor_for(m.text, m.pos, m.row_offset),
        m.text.len() < u16::MAX,
        m.row_offset <= row_of(m.text, m.pos as int),
        row_of(m.text, m.pos as int) < line_count(m.text),
    ensures
        ({
            let t = m.text;
            let r = row_of(t, m.pos as int) as int;
            let last = line_count(t) - 1;
            let want = if r + n < 0 { 0 } else if r + n > last { last } else { r + n };
            let a = if want < m.row_offset { m.row_offset as int } else { want };
            let p = m.move_rows(n).0;
            &&& p.text == t
            &&& p.row_offset == m.row_offset
            &&& p.window == m.window
            &&& row_of(t, p.pos as int) == a
            &&& m.move_rows(n).1 == if a >= r { a - r } else { r - a }
            &&& want >= m.row_offset ==> col_of(t, p.pos as int) == if m.cursor.0 <= line_len(t, want as nat) {
                m.cursor.0 as nat
            } else {
                line_len(t, want as nat)
            }
        }),
{
    let t = m.text;
    let r = row_of(t, m.pos as int);
    lemma_row_monotone(t, m.pos as int, t.len() as int);
    lemma_line_count_ge_rows(t);
    lemma_line_count_bounded(t);
    let lc = line_count(t);
    let last = lc - 1;
    let want = if r + n < 0 { 0 } else if r + n > last { last } else { r + n };
    assert(want <= newline_count(t));
    lemma_row_bounds(t, want as nat);
    let a: int = if want < m.row_offset { m.row_offset as int } else { want };
    assert(a <= newline_count(t));
    let p = m.move_rows(n).0;
    let ro = m.row_offset;
    assert(m.cursor.1 == r - ro);
    assert(((last as usize) as u16) == last);
    assert(((ro as usize) as u16) == ro);
    let abs = sat_u16(m.cursor.1 + ((ro as usize) as u16));
    assert(abs == r);
    let target = sat_u16(abs + n);
    let fin = if target > ((last as usize) as u16) { ((last as usize) as u16) } else { target };
    assert(fin == want);
    assert(sat_u16(fin - ((ro as usize) as u16)) + ro == a);
    assert(p.cursor.1 + ro == a);
    assert(p.row_offset == ro);
    assert(p.text == t);
    lemma_index_at_position(t, a as nat, p.cursor.0 as nat);
    assert(p.pos == index_at(t, a as nat, p.cursor.0 as nat));
}

/// Dragging by columns moves the cursor as moving by columns does and makes
/// the selection run from its origin (kept when one is open) to the cursor.
pub proof fn law_drag_cols_keeps_origin(m: EditorModel, n: isize)
    requires
        m.wf(),
    ensures
        m.drag_cols(n).0.pos == m.move_cols(n).0.pos,
        m.drag_cols(n).0.text == m.text,
        m.drag_cols(n).1 == m.move_cols(n).1,
        m.drag_cols(n).0.window == Some(
            (drag_origin(m), byte_offset(m.text, m.drag_cols(n).0.pos as int) as usize),
        ),
        m.window matches Some(w) ==> (m.drag_cols(n).0.window matches Some(v) && v.0 == w.0),
{
}

/// Dragging by rows moves the cursor as moving by rows does and makes the
/// selection run from its origin (kept when one is open) to the cursor.
pub proof fn law_drag_rows_keeps_origin(m: EditorModel, n: i16)
    requires
        m.wf(),
    ensures
        m.drag_rows(n).0.pos == m.move_rows(n).0.pos,
        m.drag_rows(n).0.text == m.text,
        m.drag_rows(n).1 == m.move_rows(n).1,
        m.drag_rows(n).0.window == Some(
            (drag_origin(m), byte_offset(m.text, m.drag_rows(n).0.pos as int) as usize),
        ),
        m.window matches Some(w) ==> (m.drag_rows(n).0.window matches Some(v) && v.0 == w.0),
{
}

/// Snapping right moves the cursor forward to the first space after it in
/// its row, or to the end of its row when there is none, and selects from
/// the drag origin to there.
pub proof fn law_snap_drag_right_stops_at_space(m: EditorModel)
    requires
        m.wf(),
    ensures
        ({
            let t = m.text;
            let e = row_end(t, row_of(t, m.pos as int));
            let p = m.snap_drag_right();
            &&& p.text == t
            &&& m.pos <= p.pos <= e
            &&& p.pos == e || t[p.pos as int] == ' '
            &&& forall|j: int| m.pos <= j < p.pos ==> t[j] != ' '
            &&& p.window == Some((drag_origin(m), byte_offset(t, p.pos as int) as usize))
        }),
{
    let t = m.text;
    let k = m.pos as int;
    lemma_row_end_exists(t, k);
    lemma_row_start_exists(t, k);
    lemma_len_le_utf8_len(t);
    let e = row_end(t, row_of(t, k));
    match first_from(t, k, ' ') {
        Some(j) => {
            assert(is_first_from(t, k, ' ', j)) by {
                assert(exists|j: int| is_first_from(t, k, ' ', j));
            }
            law_drag_cols_keeps_origin(m, (j - k) as isize);
        },
        None => {
            assert(!exists|j: int| is_first_from(t, k, ' ', j));
            assert forall|j: int| k <= j < t.len() implies t[j] != ' ' by {
                if t[j] == ' ' {
                    let j0 = choose|j0: int| k <= j0 < t.len() && t[j0] == ' ' && forall|i: int| k <= i < j0 ==> t[i] != ' ';
                    lemma_first_exists(t, k, ' ', j);
                }
            }
            law_drag_cols_keeps_origin(m, isize::MAX);
        },
    }
}

/// If some position from `k` on holds `c`, there is a first one.
proof fn lemma_first_exists(t: Seq<char>, k: int, c: char, j: int)
    requires
        0 <= k <= j < t.len(),
        t[j] == c,
    ensures
        exists|j0: int| is_first_from(t, k, c, j0),
    decreases j - k,
{
    if forall|i: int| k <= i < j ==> t[i] != c {
        assert(is_first_from(t, k, c, j));
    } else {
        let i = choose|i: int| k <= i < j && t[i] == c;
        lemma_first_exists(t, k, c, i);
    }
}

/// If some position before `k` holds `c`, there is a last one.
proof fn lemma_last_exists(t: Seq<char>, k: int, c: char, j: int)
    requires
        0 <= j < k <= t.len(),
        t[j] == c,
    ensures
        exists|j0: int| is_last_before(t, k, c, j0),
    decreases k - j,
{
    if forall|i: int| j < i < k ==> t[i] != c {
        assert(is_last_before(t, k, c, j));
    } else {
        let i = choose|i: int| j < i < k && t[i] == c;
        lemma_last_exists(t, k, c, i);
    }
}

/// Snapping left moves the cursor back to the last space before it, kept
/// inside its row, and selects from the drag origin to there; with no space
/// before the cursor nothing happens.
pub proof fn law_snap_drag_left_stops_at_space(m: EditorModel)
    requires
        m.wf(),
    ensures
        ({
            let t = m.text;
            let s = row_start(t, row_of(t, m.pos as int));
            let p = m.snap_drag_left();
            &&& p.text == t
            &&& (forall|j: int| 0 <= j < m.pos ==> t[j] != ' ') ==> p == m
            &&& (exists|j: int| 0 <= j < m.pos && t[j] == ' ') ==> {
                &&& s <= p.pos <= m.pos
                &&& p.pos == s || t[p.pos as int] == ' '
                &&& forall|j: int| p.pos < j < m.pos ==> t[j] != ' '
                &&& p.window == Some((drag_origin(m), byte_offset(t, p.pos as int) as usize))
            }
        }),
{
    let t = m.text;
    let k = m.pos as int;
    lemma_row_start_exists(t, k);
    lemma_len_le_utf8_len(t);
    match last_before(t, k, ' ') {
        Some(j) => {
            assert(is_last_before(t, k, ' ', j)) by {
                assert(exists|j: int| is_last_before(t, k, ' ', j));
            }
            law_drag_cols_keeps_origin(m, (-(k - j)) as isize);
        },
        None => {
            assert(!exists|j: int| is_last_before(t, k, ' ', j));
            assert forall|j: int| 0 <= j < k implies t[j] != ' ' by {
                if t[j] == ' ' {
                    lemma_last_exists(t, k, ' ', j);
                }
            }
        },
    }
}


/// Typing `c` with no selection puts `c` at the cursor, keeps the rest of the
/// text, moves the cursor past `c` (by its UTF-8 width in bytes) and saves
/// the new text and cursor as the newest snapshot, discarding any redo
/// history; the cursor is drawn where the new position is.
pub proof fn law_insert_char_without_selection(m: EditorModel, c: char)
    requires
        m.wf(),
        m.window is None,
    ensures
        ({
            let t = m.text;
            let k = m.pos as int;
            let p = m.insert_char(c);
            &&& p.text.len() == t.len() + 1
            &&& p.text[k] == c
            &&& forall|i: int| 0 <= i < k ==> p.text[i] == t[i]
            &&& forall|i: int| k < i < p.text.len() ==> p.text[i] == t[i - 1]
            &&& p.pos == m.pos + 1
            &&& p.byte_pos() == m.byte_pos() + char_width(c)
            &&& p.window is None
            &&& p.cursor == cursor_for(p.text, p.pos, p.row_offset)
            &&& p.current == m.current + 1
            &&& p.snapshots.len() == m.current + 2
            &&& p.snapshots[p.current as int] == (p.text, p.cursor)
            &&& forall|i: int| 0 <= i <= m.current ==> p.snapshots[i] == m.snapshots[i]
        }),
{
    let t = m.text;
    let k = m.pos as int;
    let t2 = t.insert(k, c);
    assert(t2.take(k + 1) =~= t.take(k).push(c));
    lemma_utf8_len_push(t.take(k), c);
}

/// Typing `c` over a selection replaces the selected characters (between
/// the byte offsets of its two ends) by `c` and leaves the cursor after it.
pub proof fn law_insert_char_replaces_selection(m: EditorModel, c: char)
    requires
        m.wf(),
        m.window is Some,
        m.selection_ok(),
    ensures
        ({
            let t = m.text;
            let w = m.window->0;
            let lo = if w.0 <= w.1 { w.0 } else { w.1 };
            let hi = if w.0 <= w.1 { w.1 } else { w.0 };
            let p = m.insert_char(c);
            exists|l: int, r: int|
                {
                    &&& 0 <= l <= r <= t.len()
                    &&& byte_offset(t, l) == lo
                    &&& byte_offset(t, r) == hi
                    &&& p.text == t.subrange(0, l) + seq![c] + t.subrange(r, t.len() as int)
                    &&& p.pos == l + 1
                    &&& p.window is None
                }
        }),
{
    let t = m.text;
    let w = m.window->0;
    let lo = if w.0 <= w.1 { w.0 } else { w.1 };
    let hi = if w.0 <= w.1 { w.1 } else { w.0 };
    assert(is_boundary(t, lo as int));
    assert(is_boundary(t, hi as int));
    let l = char_pos_of(t, lo as int);
    let r = char_pos_of(t, hi as int);
    if r < l {
        lemma_offset_monotone(t, r, l);
    }
    let cut = t.subrange(0, l) + t.subrange(r, t.len() as int);
    assert(cut.insert(l, c) =~= t.subrange(0, l) + seq![c] + t.subrange(r, t.len() as int));
}

/// Backspace with no selection removes the character before the cursor and
/// moves the cursor back over it, saving the result as the newest snapshot;
/// at the start of the text it changes nothing.
pub proof fn law_delete_char_without_selection(m: EditorModel)
    requires
        m.wf(),
        m.window is None,
    ensures
        ({
            let t = m.text;
            let k = m.pos as int;
            let p = m.delete_char();
            &&& k == 0 ==> p == m
            &&& k > 0 ==> {
                &&& p.text == t.subrange(0, k - 1) + t.subrange(k, t.len() as int)
                &&& p.pos == k - 1
                &&& p.byte_pos() + char_width(t[k - 1]) == m.byte_pos()
                &&& p.current == m.current + 1
                &&& p.snapshots[p.current as int] == (p.text, p.cursor)
            }
        }),
{
    let t = m.text;
    let k = m.pos as int;
    if k > 0 {
        assert(t.remove(k - 1) =~= t.subrange(0, k - 1) + t.subrange(k, t.len() as int));
        let t2 = t.remove(k - 1);
        assert(t2.take(k - 1) =~= t.take(k - 1));
        lemma_offset_step(t, k - 1);
    }
}

/// Undo steps the history back by one (not below the first snapshot) and
/// redo forward by one (not past the newest); either way the text and the
/// cursor become those of the snapshot reached, and the position is the one
/// the cursor marks.
pub proof fn law_undo_redo_restore(m: EditorModel)
    requires
        m.wf(),
    ensures
        m.undo().current == if m.current > 0 { m.current - 1 } else { 0 },
        m.redo().current == if m.current + 1 < m.snapshots.len() { m.current + 1 } else { m.current },
        m.undo().text == m.snapshots[m.undo().current as int].0,
        m.undo().cursor == m.snapshots[m.undo().current as int].1,
        m.redo().text == m.snapshots[m.redo().current as int].0,
        m.redo().cursor == m.snapshots[m.redo().current as int].1,
        m.undo().snapshots == m.snapshots,
        m.redo().snapshots == m.snapshots,
        at_cursor(m.undo()),
        at_cursor(m.redo()),
{
    lemma_cursor_marks(m.undo());
    lemma_cursor_marks(m.redo());
}

} // verus!
