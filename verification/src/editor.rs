//! The editor: a text with a cursor, an optional selection, a scroll offset,
//! a status log and an undo history. Reading and writing the file and
//! drawing on the terminal are left to the caller.

use vstd::prelude::*;
use vstd::string::StringExecFns;
use crate::text::{
    byte_offset, is_boundary, is_row_end, is_row_start, line_count, row_end, row_of, row_start,
    utf8_len, lemma_row_end_exists, lemma_row_start_exists, lemma_same_row,
    byte_offset_exec, char_index_of_byte, char_width_of, chars_of, find_backward, find_forward,
    index_at_exec, line_count_exec, line_len_exec, remove_range, row_col, string_of,
    lemma_index_at_bounded, lemma_len_le_utf8_len, lemma_row_bounds, line_text, lemma_line_count_bounded, lemma_offset_bounded, lemma_offset_full,
    lemma_offset_monotone, lemma_offset_prefix, lemma_offset_split, lemma_offset_step,
    lemma_offset_unique, lemma_offset_zero, lemma_utf8_len_concat, lemma_utf8_len_push,
};
use crate::editor_model::{
    EditorModel, print_model, char_pos_of, first_from, is_first_from, last_before,
    is_last_before, sat_u16, lemma_first_unique, lemma_last_unique, lemma_char_pos_of_offset,
};
use crate::snapshot_controller::SnapshotController;

verus! {

/// Messages shown at the bottom of the screen; it keeps at most `lines - 1`.
pub struct StatusLog {
    log: Vec<String>,
    lines: u16,
}

impl StatusLog {
    /// The messages, oldest first.
    pub closed spec fn messages(&self) -> Seq<Seq<char>> {
        self.log@.map_values(|m: String| m@)
    }

    /// The number of screen lines the log is given.
    pub closed spec fn lines(&self) -> u16 {
        self.lines
    }

    /// `print` can run: the log has at least one line, and a log that must
    /// drop its oldest message has one.
    pub open spec fn can_print(&self) -> bool {
        &&& self.lines() >= 1
        &&& self.messages().len() >= self.lines() - 1 ==> self.messages().len() > 0
    }

    pub fn new(lines: u16) -> (res: StatusLog)
        ensures
            res.messages() == Seq::<Seq<char>>::empty(),
            res.lines() == lines,
    {
        let res = StatusLog { log: Vec::new(), lines };
        assert(res.messages() =~= Seq::<Seq<char>>::empty());
        res
    }

    /// Adds `message` last, dropping the oldest message once the log holds
    /// `lines - 1` of them.
    pub fn print(&mut self, message: &str)
        requires
            old(self).can_print(),
        ensures
            final(self).lines() == old(self).lines(),
            final(self).messages() == print_model(old(self).messages(), old(self).lines(), message@),
    {
        let ghost before = self.messages();
        if self.log.len() >= self.lines as usize - 1 {
            self.log.remove(0);
            assert(self.messages() =~= before.drop_first());
        }
        let ghost mid = self.messages();
        self.log.push(message.to_owned());
        assert(self.messages() =~= mid.push(message@));
    }

    /// The messages, oldest first.
    pub fn messages_exec(&self) -> (res: &Vec<String>)
        ensures
            res@.map_values(|m: String| m@) == self.messages(),
    {
        &self.log
    }

    /// The number of screen lines the log is given.
    pub fn lines_exec(&self) -> (res: u16)
        ensures
            res == self.lines(),
    {
        self.lines
    }
}

/// A selection between two byte offsets of the text: where it was started
/// and where the cursor dragged it.
#[derive(Clone, Copy)]
pub struct SelectWindow {
    pub origin: usize,
    pub pivot: usize,
}

impl SelectWindow {
    pub fn get_left(&self) -> (res: usize)
        ensures
            res == if self.origin <= self.pivot { self.origin } else { self.pivot },
    {
        if self.origin <= self.pivot {
            self.origin
        } else {
            self.pivot
        }
    }

    pub fn get_right(&self) -> (res: usize)
        ensures
            res == if self.origin <= self.pivot { self.pivot } else { self.origin },
    {
        if self.origin <= self.pivot {
            self.pivot
        } else {
            self.origin
        }
    }
}

/// Number of lines shown from row `row_offset` on, in a text area of
/// `available_rows` rows.
pub open spec fn visible_line_count(t: Seq<char>, row_offset: nat, available_rows: u16) -> nat {
    if row_offset >= line_count(t) {
        0
    } else if line_count(t) - row_offset <= available_rows {
        (line_count(t) - row_offset) as nat
    } else {
        available_rows as nat
    }
}

/// The text area of the screen.
pub enum ScreenBody {
    /// The visible lines, from the scroll offset on.
    Lines(Vec<String>),
    /// The whole text, split at the two ends of the selection.
    Selection(String, String, String),
}

/// What a redraw shows.
pub struct Screen {
    pub body: ScreenBody,
    /// The screen row where the status log starts.
    pub status_top: u16,
    /// The status log's messages, oldest first.
    pub status_messages: Vec<String>,
    /// Where the cursor is placed.
    pub cursor: (u16, u16),
}

pub struct Editor {
    file_name: String,
    data_buffer: Vec<char>,
    select_window: Option<SelectWindow>,
    // Byte offset of the cursor in the text.
    buffer_pos: usize,
    // Character position of the cursor in the text.
    char_pos: usize,
    // Visible cursor position: (character column, visible row).
    cursor_pos: (u16, u16),
    header: Option<String>,
    status_log: StatusLog,
    file_state_controller: SnapshotController,
    // Number of rows scrolled from top.
    row_offset: usize,
}

impl View for Editor {
    type V = EditorModel;

    closed spec fn view(&self) -> EditorModel {
        EditorModel {
            text: self.data_buffer@,
            pos: self.char_pos as nat,
            cursor: self.cursor_pos,
            window: match self.select_window {
                Some(w) => Some((w.origin, w.pivot)),
                None => None,
            },
            row_offset: self.row_offset as nat,
            log: self.status_log.messages(),
            log_lines: self.status_log.lines(),
            snapshots: self.file_state_controller.snapshots(),
            current: self.file_state_controller.current(),
            file_name: self.file_name@,
        }
    }
}

impl Editor {
    /// The byte position kept with the cursor agrees with it.
    pub closed spec fn pos_ok(&self) -> bool {
        &&& self.char_pos <= self.data_buffer@.len()
        &&& self.buffer_pos == byte_offset(self.data_buffer@, self.char_pos as int)
        &&& utf8_len(self.data_buffer@) <= isize::MAX
        &&& self.row_offset <= isize::MAX
    }

    /// What every editor value satisfies.
    pub closed spec fn wf(&self) -> bool {
        &&& self@.wf()
        &&& self.pos_ok()
    }

    /// The invariant holds of the model too.
    pub proof fn lemma_wf(&self)
        requires
            self.wf(),
        ensures
            self@.wf(),
            self.pos_ok(),
            self@.byte_pos() <= isize::MAX,
    {
        lemma_offset_bounded(self.data_buffer@, self.char_pos as int);
    }

    /// An editor for the text `data` of the file `file_name`, with the cursor
    /// at the start and the text as the only snapshot.
    pub fn new(data: String, file_name: String) -> (res: Self)
        requires
            utf8_len(data@) <= isize::MAX,
        ensures
            res.wf(),
            res@ == (EditorModel {
                text: data@,
                pos: 0,
                cursor: (0, 0),
                window: None,
                row_offset: 0,
                log: Seq::empty(),
                log_lines: 5,
                snapshots: seq![(data@, (0u16, 0u16))],
                current: 0,
                file_name: file_name@,
            }),
    {
        let data_buffer = chars_of(&data);
        let state = data.clone();
        proof {
            lemma_offset_zero(data_buffer@);
        }
        let res = Editor {
            file_name,
            data_buffer,
            select_window: None,
            buffer_pos: 0,
            char_pos: 0,
            cursor_pos: (0, 0),
            header: None,
            status_log: StatusLog::new(5),
            file_state_controller: SnapshotController::new(state, (0, 0)),
            row_offset: 0,
        };
        assert(res@.snapshots[0].0 == data@);
        res
    }

    // Sync the cursor pos when the buffer pos is changed manually.
    fn update_cursor_position(&mut self)
        requires
            old(self).pos_ok(),
        ensures
            final(self).pos_ok(),
            final(self)@ == old(self)@.cursor_synced(),
    {
        let (absolute_row, col) = row_col(&self.data_buffer, self.char_pos);
        let visible_row = if absolute_row >= self.row_offset {
            absolute_row - self.row_offset
        } else {
            0
        };
        let c: u16 = if col > 65535 {
            65535
        } else {
            col as u16
        };
        let r: u16 = if visible_row > 65535 {
            65535
        } else {
            visible_row as u16
        };
        self.cursor_pos = (c, r);
    }

    // Sync the buffer pos when the cursor pos is changed manually.
    fn update_buffer_position(&mut self)
        requires
            old(self).pos_ok() || (utf8_len(old(self).data_buffer@) <= isize::MAX
                && old(self).row_offset <= isize::MAX),
        ensures
            final(self).pos_ok(),
            final(self)@ == old(self)@.pos_synced(),
    {
        let (col, row) = self.cursor_pos;
        let absolute_row = row as usize + self.row_offset;
        let k = index_at_exec(&self.data_buffer, absolute_row, col as usize);
        proof {
            lemma_index_at_bounded(self.data_buffer@, absolute_row as nat, col as nat);
        }
        self.char_pos = k;
        self.buffer_pos = byte_offset_exec(&self.data_buffer, k);
    }

    /// Pushes the text and the cursor onto the undo history.
    pub fn save_snapshot(&mut self)
        requires
            old(self).pos_ok(),
            old(self)@.wf_unsaved(),
        ensures
            final(self).wf(),
            final(self)@ == old(self)@.snapshot_saved(),
    {
        let data = string_of(&self.data_buffer, 0, self.data_buffer.len());
        assert(data@ =~= self.data_buffer@);
        let cursor = self.cursor_pos();
        self.file_state_controller.push_snapshot(data, cursor);
    }

    /// Cuts the text between the byte offsets `left` and `right` and puts the
    /// cursor where it was.
    fn drain_selection(&mut self, left: usize, right: usize)
        requires
            old(self).pos_ok(),
            left <= right,
            is_boundary(old(self).data_buffer@, left as int),
            is_boundary(old(self).data_buffer@, right as int),
        ensures
            final(self).pos_ok(),
            final(self)@ == (EditorModel {
                text: old(self)@.text.subrange(0, char_pos_of(old(self)@.text, left as int))
                    + old(self)@.text.subrange(
                    char_pos_of(old(self)@.text, right as int),
                    old(self)@.text.len() as int,
                ),
                pos: char_pos_of(old(self)@.text, left as int) as nat,
                ..old(self)@
            }),
            final(self).buffer_pos == left,
    {
        let ghost t = self.data_buffer@;
        proof {
            lemma_offset_bounded(t, char_pos_of(t, right as int));
        }
        let l = match char_index_of_byte(&self.data_buffer, left) {
            Some(l) => l,
            None => {
                proof {
                    assert(false);
                }
                0
            },
        };
        let r = match char_index_of_byte(&self.data_buffer, right) {
            Some(r) => r,
            None => {
                proof {
                    assert(false);
                }
                0
            },
        };
        proof {
            lemma_offset_unique(t, l as int, char_pos_of(t, left as int));
            lemma_offset_unique(t, r as int, char_pos_of(t, right as int));
            if r < l {
                lemma_offset_monotone(t, r as int, l as int);
            }
        }
        remove_range(&mut self.data_buffer, l, r);
        self.char_pos = l;
        self.buffer_pos = left;
        proof {
            let t2 = self.data_buffer@;
            assert(t2.subrange(0, l as int) =~= t.subrange(0, l as int));
            lemma_offset_prefix(t, t2, l as int);
            lemma_utf8_len_concat(t.subrange(0, l as int), t.subrange(r as int, t.len() as int));
            lemma_offset_split(t, r as int);
            lemma_offset_monotone(t, l as int, r as int);
            assert(t.take(l as int) =~= t.subrange(0, l as int));
        }
    }

    /// Typing `c`: replaces the selection, or goes in at the cursor, which
    /// then stands after it; the result is saved in the undo history.
    pub fn insert_char(&mut self, c: char)
        requires
            old(self).wf(),
            old(self)@.can_insert(c),
        ensures
            final(self).wf(),
            final(self)@ == old(self)@.insert_char(c),
    {
        if self.select_window.is_some() {
            let window = self.select_window.unwrap();
            let left = window.get_left();
            let right = window.get_right();
            self.drain_selection(left, right);
            self.select_window = None;
        }
        let ghost t = self.data_buffer@;
        let ghost k = self.char_pos;
        proof {
            assert((t, k as nat) == old(self)@.selection_removed());
            lemma_offset_split(t, k as int);
            lemma_len_le_utf8_len(t);
        }
        let w = char_width_of(c);
        self.data_buffer.insert(self.char_pos, c);
        proof {
            let t2 = self.data_buffer@;
            assert(t2 =~= t.take(k as int).push(c) + t.subrange(k as int, t.len() as int));
            lemma_utf8_len_concat(t.take(k as int).push(c), t.subrange(k as int, t.len() as int));
            lemma_utf8_len_push(t.take(k as int), c);
            assert(t2.take(k + 1) =~= t.take(k as int).push(c));
        }
        self.buffer_pos = self.buffer_pos + w;
        self.char_pos = self.char_pos + 1;
        self.update_cursor_position();
        self.save_snapshot();
    }

    /// Backspace: cuts the selection, or the character before the cursor;
    /// the result is saved in the undo history. At the start of the text with
    /// no selection nothing happens.
    pub fn delete_char(&mut self)
        requires
            old(self).wf(),
            old(self)@.selection_ok(),
        ensures
            final(self).wf(),
            final(self)@ == old(self)@.delete_char(),
    {
        if self.select_window.is_none() {
            if self.buffer_pos == 0 {
                proof {
                    if self.char_pos > 0 {
                        lemma_offset_monotone(self.data_buffer@, 0, self.char_pos as int);
                        lemma_offset_zero(self.data_buffer@);
                    }
                }
                return;
            }
            let ghost t = self.data_buffer@;
            let ghost k = self.char_pos;
            proof {
                if k == 0 {
                    lemma_offset_zero(t);
                }
                lemma_offset_step(t, k - 1);
                lemma_offset_split(t, k as int);
                lemma_offset_split(t, k - 1);
            }
            let prev = self.prev_char_boundary();
            self.data_buffer.remove(self.char_pos - 1);
            self.char_pos = self.char_pos - 1;
            self.buffer_pos = prev;
            proof {
                let t2 = self.data_buffer@;
                assert(t2 =~= t.take(k - 1) + t.subrange(k as int, t.len() as int));
                lemma_utf8_len_concat(t.take(k - 1), t.subrange(k as int, t.len() as int));
                assert(t2.take(k - 1) =~= t.take(k - 1));
                assert(t.take(k - 1) =~= t.subrange(0, k - 1));
            }
        } else {
            let window = self.select_window.unwrap();
            let left = window.get_left();
            let right = window.get_right();
            self.drain_selection(left, right);
            self.select_window = None;
        }
        self.update_cursor_position();
        self.save_snapshot();
    }

    /// Byte offset of the character before the cursor.
    fn prev_char_boundary(&self) -> (res: usize)
        requires
            self.pos_ok(),
            self.char_pos > 0,
        ensures
            res == byte_offset(self.data_buffer@, self.char_pos - 1),
    {
        proof {
            lemma_offset_step(self.data_buffer@, self.char_pos - 1);
        }
        self.buffer_pos - char_width_of(self.data_buffer[self.char_pos - 1])
    }

    /// Restores the snapshot `n` steps away in the undo history.
    fn restore(&mut self, n: isize)
        requires
            old(self).wf(),
            n == 1 || n == -1,
        ensures
            final(self).wf(),
            final(self)@ == old(self)@.restore(n as int),
    {
        self.file_state_controller.move_pointer(n);
        let snapshot = self.file_state_controller.get_current_snapshot();
        self.data_buffer = chars_of(&snapshot.data);
        self.cursor_pos = snapshot.cursor_pos;
        proof {
            assert(utf8_len(self@.snapshots[self@.current as int].0) <= isize::MAX);
        }
        self.update_buffer_position();
    }

    /// Goes one step back in the undo history.
    pub fn undo(&mut self)
        requires
            old(self).wf(),
        ensures
            final(self).wf(),
            final(self)@ == old(self)@.undo(),
    {
        self.restore(-1);
    }

    /// Goes one step forward in the undo history.
    pub fn redo(&mut self)
        requires
            old(self).wf(),
        ensures
            final(self).wf(),
            final(self)@ == old(self)@.redo(),
    {
        self.restore(1);
    }

    // Moves the cursor one character right; false at the end of its row.
    fn move_right_one_char(&mut self) -> (moved: bool)
        requires
            old(self).pos_ok(),
        ensures
            final(self).pos_ok(),
            moved == (old(self)@.pos < old(self)@.text.len() && old(self)@.text[old(self)@.pos as int]
                != '\n'),
            final(self)@ == (EditorModel {
                pos: if moved { old(self)@.pos + 1 } else { old(self)@.pos },
                ..old(self)@
            }),
    {
        if self.char_pos >= self.data_buffer.len() || self.data_buffer[self.char_pos] == '\n' {
            return false;
        }
        proof {
            lemma_offset_step(self.data_buffer@, self.char_pos as int);
            lemma_offset_bounded(self.data_buffer@, self.char_pos + 1);
        }
        self.buffer_pos = self.buffer_pos + char_width_of(self.data_buffer[self.char_pos]);
        self.char_pos = self.char_pos + 1;
        true
    }

    // Moves the cursor one character left; false at the start of its row.
    fn move_left_one_char(&mut self) -> (moved: bool)
        requires
            old(self).pos_ok(),
        ensures
            final(self).pos_ok(),
            moved == (old(self)@.pos > 0 && old(self)@.text[old(self)@.pos - 1] != '\n'),
            final(self)@ == (EditorModel {
                pos: if moved { (old(self)@.pos - 1) as nat } else { old(self)@.pos },
                ..old(self)@
            }),
    {
        if self.char_pos == 0 || self.data_buffer[self.char_pos - 1] == '\n' {
            return false;
        }
        self.buffer_pos = self.prev_char_boundary();
        self.char_pos = self.char_pos - 1;
        true
    }

    /// Moves the cursor by `num_cols` characters (negative is left), clamped
    /// to the current row: it stops at the row's newline or at the end of the
    /// text, and at the row's start. Returns how far the screen column moved.
    pub fn move_cols(&mut self, num_cols: isize) -> (moved: usize)
        requires
            old(self).wf(),
        ensures
            final(self).wf(),
            (final(self)@, moved) == old(self)@.move_cols(num_cols),
    {
        let start_col = self.cursor_pos.0;
        let ghost m0 = self@;
        let ghost t = m0.text;
        let ghost r = row_of(t, m0.pos as int);
        let ghost rs = row_start(t, r);
        let ghost re = row_end(t, r);
        proof {
            lemma_row_start_exists(t, m0.pos as int);
            lemma_row_end_exists(t, m0.pos as int);
            lemma_same_row(t, rs, m0.pos as int);
            lemma_same_row(t, m0.pos as int, re);
        }
        if num_cols > 0 {
            let count = num_cols as usize;
            let mut i: usize = 0;
            while i < count
                invariant_except_break
                    self.pos_ok(),
                    i <= count,
                    t == m0.text,
                    self@ == (EditorModel { pos: (m0.pos + i) as nat, ..m0 }),
                    m0.pos + i <= re,
                    forall|j: int| m0.pos <= j < re ==> t[j] != '\n',
                    re <= t.len(),
                    is_row_end(t, r, re),
                ensures
                    self.pos_ok(),
                    self@ == (EditorModel {
                        pos: if m0.pos + count <= re { (m0.pos + count) as nat } else { re as nat },
                        ..m0
                    }),
                decreases count - i,
            {
                let ghost p = m0.pos + i;
                proof {
                    if p < re {
                        assert(t[p] != '\n');
                    }
                }
                if !self.move_right_one_char() {
                    assert(p == re);
                    break ;
                }
                assert(p < re);
                i = i + 1;
            }
        } else {
            let count: usize = if num_cols == 0 {
                0
            } else {
                ((-(num_cols + 1)) as usize) + 1
            };
            let mut i: usize = 0;
            while i < count
                invariant_except_break
                    self.pos_ok(),
                    i <= count,
                    count == -num_cols,
                    t == m0.text,
                    self@ == (EditorModel { pos: (m0.pos - i) as nat, ..m0 }),
                    m0.pos - i >= rs,
                    forall|j: int| rs <= j < m0.pos ==> #[trigger] t[j] != '\n',
                    m0.pos <= t.len(),
                    is_row_start(t, r, rs),
                ensures
                    self.pos_ok(),
                    self@ == (EditorModel {
                        pos: if m0.pos + num_cols >= rs { (m0.pos + num_cols) as nat } else { rs as nat },
                        ..m0
                    }),
                decreases count - i,
            {
                let ghost p = m0.pos - i;
                proof {
                    if p > rs {
                        assert(t[p - 1] != '\n');
                    }
                }
                if !self.move_left_one_char() {
                    assert(p == rs);
                    break ;
                }
                assert(p > rs);
                i = i + 1;
            }
        }
        self.update_cursor_position();
        let new_col = self.cursor_pos.0;
        if start_col >= new_col {
            (start_col - new_col) as usize
        } else {
            (new_col - start_col) as usize
        }
    }

    // Number of newlines before the cursor.
    #[allow(dead_code)]
    fn get_current_row_number(&self) -> (res: usize)
        requires
            self.wf(),
        ensures
            res == row_of(self@.text, self@.pos as int),
    {
        row_col(&self.data_buffer, self.char_pos).0
    }

    // Length of line `row` as `str::lines` yields it, if there is one.
    fn get_row_length(&self, row: u16) -> (res: Option<usize>)
        ensures
            row < line_count(self@.text) ==> res == Some(
                crate::text::line_len(self@.text, row as nat) as usize,
            ),
            row >= line_count(self@.text) ==> res is None,
    {
        line_len_exec(&self.data_buffer, row as usize)
    }

    /// Moves the cursor by `num_rows` rows, clamping the row to the last line
    /// and the column to the length of the target line. Returns how far the
    /// screen row moved.
    pub fn move_rows(&mut self, num_rows: i16) -> (moved: usize)
        requires
            old(self).wf(),
        ensures
            final(self).wf(),
            (final(self)@, moved) == old(self)@.move_rows(num_rows),
    {
        let (mut col, mut row) = self.cursor_pos;
        let start_row = row;
        let line_count = line_count_exec(&self.data_buffer);
        if line_count == 0 {
            proof {
                lemma_offset_zero(self.data_buffer@);
            }
            self.buffer_pos = 0;
            self.char_pos = 0;
            self.cursor_pos = (0, 0);
            return 0;
        }
        let max_absolute_row = (line_count - 1) as u16;
        let offset16 = self.row_offset as u16;
        let sum: u32 = row as u32 + offset16 as u32;
        let absolute_row: u16 = if sum > 65535 {
            65535
        } else {
            sum as u16
        };
        let shifted: i32 = absolute_row as i32 + num_rows as i32;
        let target_absolute_row: u16 = if shifted < 0 {
            0
        } else if shifted > 65535 {
            65535
        } else {
            shifted as u16
        };
        let final_absolute_row = if target_absolute_row > max_absolute_row {
            max_absolute_row
        } else {
            target_absolute_row
        };
        row = if final_absolute_row >= offset16 {
            final_absolute_row - offset16
        } else {
            0
        };
        match self.get_row_length(final_absolute_row) {
            Some(row_len) => {
                if (row_len as u16) < col {
                    col = row_len as u16;
                }
            },
            None => {},
        }
        self.cursor_pos = (col, row);
        self.update_buffer_position();
        if start_row >= row {
            (start_row - row) as usize
        } else {
            (row - start_row) as usize
        }
    }

    /// Moves the cursor to the start of the next line; when no newline follows
    /// the cursor, types one.
    pub fn move_next_line(&mut self) -> (res: Result<(), ()>)
        requires
            old(self).wf(),
            first_from(old(self)@.text, old(self)@.pos as int, '\n') is None ==> old(
                self,
            )@.can_insert('\n'),
        ensures
            final(self).wf(),
            final(self)@ == old(self)@.move_next_line(),
            res is Ok,
    {
        match find_forward(&self.data_buffer, self.char_pos, '\n') {
            Some(j) => {
                proof {
                    assert(is_first_from(self@.text, self@.pos as int, '\n', j as int));
                    lemma_first_unique(self@.text, self@.pos as int, '\n', j as int);
                    lemma_len_le_utf8_len(self.data_buffer@);
                    lemma_offset_bounded(self.data_buffer@, j + 1);
                }
                self.char_pos = j + 1;
                self.buffer_pos = byte_offset_exec(&self.data_buffer, j + 1);
                self.update_cursor_position();
                Ok(())
            },
            None => {
                proof {
                    assert(!exists|j: int| is_first_from(self@.text, self@.pos as int, '\n', j));
                }
                self.insert_char('\n');
                Ok(())
            },
        }
    }

    /// Moves the cursor by `num_cols` characters, extending the selection
    /// (or starting one where the cursor was) up to the cursor.
    pub fn drag_cols(&mut self, num_cols: isize) -> (moved: usize)
        requires
            old(self).wf(),
        ensures
            final(self).wf(),
            (final(self)@, moved) == old(self)@.drag_cols(num_cols),
    {
        let start_pos = self.buffer_pos;
        let cols_moved = self.move_cols(num_cols);
        let origin: usize;
        let pivot: usize;
        if self.select_window_active() {
            let window = self.select_window.unwrap();
            origin = window.origin;
            pivot = self.buffer_pos;
        } else {
            origin = start_pos;
            pivot = self.buffer_pos;
        }
        self.select_window = Some(SelectWindow { origin, pivot });
        cols_moved
    }

    /// Moves the cursor by `num_rows` rows, extending the selection (or
    /// starting one where the cursor was) up to the cursor.
    pub fn drag_rows(&mut self, num_rows: i16) -> (moved: usize)
        requires
            old(self).wf(),
        ensures
            final(self).wf(),
            (final(self)@, moved) == old(self)@.drag_rows(num_rows),
    {
        let start_pos = self.buffer_pos;
        let rows_moved = self.move_rows(num_rows);
        let origin: usize;
        let pivot: usize;
        if self.select_window_active() {
            let window = self.select_window.unwrap();
            origin = window.origin;
            pivot = self.buffer_pos;
        } else {
            origin = start_pos;
            pivot = self.buffer_pos;
        }
        self.select_window = Some(SelectWindow { origin, pivot });
        rows_moved
    }

    /// Selects up to the next space after the cursor, or to the end of the text.
    pub fn snap_drag_right(&mut self)
        requires
            old(self).wf(),
        ensures
            final(self).wf(),
            final(self)@ == old(self)@.snap_drag_right(),
    {
        let ghost t = self@.text;
        let ghost k = self@.pos;
        if let Some(next_space_pos) = self.get_next_char_pos(' ') {
            let ghost j = first_from(t, k as int, ' ')->0;
            proof {
                assert(is_first_from(t, k as int, ' ', j)) by {
                    assert(exists|j: int| is_first_from(t, k as int, ' ', j));
                }
                lemma_char_pos_of_offset(t, j);
                lemma_char_pos_of_offset(t, k as int);
                lemma_offset_bounded(t, j);
                lemma_offset_bounded(t, k as int);
                if j < k {
                    lemma_offset_monotone(t, j, k as int);
                } else {
                    lemma_offset_monotone(t, k as int, j);
                }
            }
            let distance = self.count_chars_between(self.buffer_pos, next_space_pos) as isize;
            assert(distance == j - k);
            self.drag_cols(distance);
        } else {
            self.drag_cols(isize::MAX);
        }
    }

    /// Selects back to the last space before the cursor, if there is one.
    pub fn snap_drag_left(&mut self)
        requires
            old(self).wf(),
        ensures
            final(self).wf(),
            final(self)@ == old(self)@.snap_drag_left(),
    {
        let ghost t = self@.text;
        let ghost k = self@.pos;
        if let Some(last_space_pos) = self.get_last_char_pos(' ') {
            let ghost j = last_before(t, k as int, ' ')->0;
            proof {
                assert(is_last_before(t, k as int, ' ', j)) by {
                    assert(exists|j: int| is_last_before(t, k as int, ' ', j));
                }
                lemma_char_pos_of_offset(t, j);
                lemma_char_pos_of_offset(t, k as int);
                lemma_offset_bounded(t, j);
                lemma_offset_bounded(t, k as int);
                if j < k {
                    lemma_offset_monotone(t, j, k as int);
                } else {
                    lemma_offset_monotone(t, k as int, j);
                }
            }
            let distance = -(self.count_chars_between(last_space_pos, self.buffer_pos) as isize);
            assert(distance == -(k - j));
            self.drag_cols(distance);
        }
    }

    /// Byte offset of the first `c` at or after the cursor.
    pub fn get_next_char_pos(&mut self, c: char) -> (res: Option<usize>)
        requires
            old(self).wf(),
        ensures
            *final(self) == *old(self),
            res == old(self)@.next_char_pos(c),
            res matches Some(b) ==> b >= old(self)@.byte_pos() && is_boundary(old(self)@.text, b as int),
    {
        match find_forward(&self.data_buffer, self.char_pos, c) {
            Some(j) => {
                proof {
                    lemma_first_unique(self@.text, self@.pos as int, c, j as int);
                    lemma_offset_bounded(self.data_buffer@, j as int);
                    lemma_offset_monotone(self.data_buffer@, self.char_pos as int, j as int);
                }
                Some(byte_offset_exec(&self.data_buffer, j))
            },
            None => {
                proof {
                    assert(!exists|j: int| is_first_from(self@.text, self@.pos as int, c, j));
                }
                None
            },
        }
    }

    /// Byte offset of the last `c` before the cursor.
    pub fn get_last_char_pos(&mut self, c: char) -> (res: Option<usize>)
        requires
            old(self).wf(),
        ensures
            *final(self) == *old(self),
            res == old(self)@.last_char_pos(c),
            res matches Some(b) ==> b < old(self)@.byte_pos() && is_boundary(old(self)@.text, b as int),
    {
        match find_backward(&self.data_buffer, self.char_pos, c) {
            Some(j) => {
                proof {
                    lemma_last_unique(self@.text, self@.pos as int, c, j as int);
                    lemma_offset_bounded(self.data_buffer@, j as int);
                    lemma_offset_monotone(self.data_buffer@, j as int, self.char_pos as int);
                }
                Some(byte_offset_exec(&self.data_buffer, j))
            },
            None => {
                proof {
                    assert(!exists|j: int| is_last_before(self@.text, self@.pos as int, c, j));
                }
                None
            },
        }
    }

    // Number of characters between the byte offsets `left` and `right`.
    fn count_chars_between(&self, left: usize, right: usize) -> (n: usize)
        requires
            self.wf(),
            is_boundary(self@.text, left as int),
            is_boundary(self@.text, right as int),
        ensures
            n == if left >= right {
                0
            } else {
                char_pos_of(self@.text, right as int) - char_pos_of(self@.text, left as int)
            },
            n <= isize::MAX,
    {
        if left >= right {
            return 0;
        }
        let ghost t = self.data_buffer@;
        proof {
            lemma_offset_bounded(t, char_pos_of(t, right as int));
            lemma_len_le_utf8_len(t);
        }
        let l = match char_index_of_byte(&self.data_buffer, left) {
            Some(l) => l,
            None => {
                proof {
                    assert(false);
                }
                0
            },
        };
        let r = match char_index_of_byte(&self.data_buffer, right) {
            Some(r) => r,
            None => {
                proof {
                    assert(false);
                }
                0
            },
        };
        proof {
            lemma_offset_unique(t, l as int, char_pos_of(t, left as int));
            lemma_offset_unique(t, r as int, char_pos_of(t, right as int));
            if r <= l {
                lemma_offset_monotone(t, r as int, l as int);
            }
        }
        r - l
    }

    /// Scrolls down by `rows` rows (the terminal's height), at most to the
    /// number of lines, and puts the cursor at its screen place in the text.
    pub fn page_down(&mut self, rows: u16)
        requires
            old(self).wf(),
        ensures
            final(self).wf(),
            final(self)@ == old(self)@.page_down(rows),
    {
        self.row_offset = self.row_offset + rows as usize;
        let lines = line_count_exec(&self.data_buffer);
        proof {
            lemma_line_count_bounded(self.data_buffer@);
            lemma_len_le_utf8_len(self.data_buffer@);
        }
        if self.row_offset > lines {
            self.row_offset = lines;
        }
        self.update_buffer_position();
    }

    /// Scrolls up by `rows` rows (the terminal's height), at least to the
    /// top, and puts the cursor at its screen place in the text.
    pub fn page_up(&mut self, rows: u16)
        requires
            old(self).wf(),
        ensures
            final(self).wf(),
            final(self)@ == old(self)@.page_up(rows),
    {
        self.row_offset = if self.row_offset >= rows as usize {
            self.row_offset - rows as usize
        } else {
            0
        };
        let lines = line_count_exec(&self.data_buffer);
        proof {
            lemma_line_count_bounded(self.data_buffer@);
            lemma_len_le_utf8_len(self.data_buffer@);
        }
        if self.row_offset > lines {
            self.row_offset = lines;
        }
        self.update_buffer_position();
    }

    pub fn select_window_active(&mut self) -> (res: bool)
        ensures
            *final(self) == *old(self),
            res == old(self)@.window is Some,
    {
        self.select_window.is_some()
    }

    pub fn close_select_window(&mut self)
        requires
            old(self).wf(),
        ensures
            final(self).wf(),
            final(self)@ == old(self)@.close_select_window(),
    {
        self.select_window = None;
    }

    /// Records in the status log how saving the file went: "File saved!", or
    /// "Error saving file: " followed by the error.
    pub fn log_save_result(&mut self, result: Result<(), String>)
        requires
            old(self).wf(),
        ensures
            final(self).wf(),
            final(self)@ == old(self)@.log_message(
                match result {
                    Ok(_) => "File saved!"@,
                    Err(e) => "Error saving file: "@ + e@,
                },
            ),
    {
        match result {
            Ok(_) => self.log("File saved!".to_owned()),
            Err(e) => {
                let mut message = "Error saving file: ".to_owned();
                message.append(e.as_str());
                self.log(message);
            },
        }
    }

    /// Adds `message` to the status log.
    pub fn log(&mut self, message: String)
        requires
            old(self).wf(),
        ensures
            final(self).wf(),
            final(self)@ == old(self)@.log_message(message@),
    {
        self.status_log.print(message.as_str());
    }

    /// The whole text.
    pub fn contents(&self) -> (res: String)
        ensures
            res@ == self@.text,
    {
        let res = string_of(&self.data_buffer, 0, self.data_buffer.len());
        assert(res@ =~= self@.text);
        res
    }

    /// The name of the file being edited.
    pub fn file_name(&self) -> (res: String)
        ensures
            res@ == self@.file_name,
    {
        self.file_name.clone()
    }

    /// Both ends of the selection, if any, are character boundaries of the text.
    pub fn selection_in_bounds(&self) -> (res: bool)
        requires
            self.wf(),
        ensures
            res == self@.selection_ok(),
    {
        match self.select_window {
            None => true,
            Some(w) => {
                let a = char_index_of_byte(&self.data_buffer, w.origin);
                let b = char_index_of_byte(&self.data_buffer, w.pivot);
                a.is_some() && b.is_some()
            },
        }
    }

    /// `c` can be typed: the selection is in bounds and the text stays within
    /// the size a string can have.
    pub fn can_insert(&self, c: char) -> (res: bool)
        requires
            self.wf(),
        ensures
            res == self@.can_insert(c),
    {
        let ghost t = self@.text;
        let n = self.data_buffer.len();
        proof {
            lemma_offset_full(t);
        }
        let total = byte_offset_exec(&self.data_buffer, n);
        let w = char_width_of(c);
        match self.select_window {
            None => total + w <= isize::MAX as usize,
            Some(window) => {
                let left = window.get_left();
                let right = window.get_right();
                let l = char_index_of_byte(&self.data_buffer, left);
                let r = char_index_of_byte(&self.data_buffer, right);
                match (l, r) {
                    (Some(l), Some(r)) => {
                        proof {
                            lemma_offset_unique(t, l as int, char_pos_of(t, left as int));
                            lemma_offset_unique(t, r as int, char_pos_of(t, right as int));
                            if r < l {
                                lemma_offset_monotone(t, r as int, l as int);
                            }
                            lemma_offset_bounded(t, r as int);
                            lemma_offset_split(t, r as int);
                            assert(t.take(l as int) =~= t.subrange(0, l as int));
                            lemma_utf8_len_concat(
                                t.subrange(0, l as int),
                                t.subrange(r as int, t.len() as int),
                            );
                            lemma_offset_monotone(t, l as int, r as int);
                        }
                        left + (total - right) + w <= isize::MAX as usize
                    },
                    _ => false,
                }
            },
        }
    }

    /// Moving to the next line can run: a newline follows the cursor, or a
    /// newline can be typed.
    pub fn can_move_next_line(&self) -> (res: bool)
        requires
            self.wf(),
        ensures
            res == (first_from(self@.text, self@.pos as int, '\n') is Some || self@.can_insert('\n')),
    {
        match find_forward(&self.data_buffer, self.char_pos, '\n') {
            Some(j) => {
                proof {
                    lemma_first_unique(self@.text, self@.pos as int, '\n', j as int);
                }
                true
            },
            None => {
                proof {
                    assert(!exists|j: int| is_first_from(self@.text, self@.pos as int, '\n', j));
                }
                self.can_insert('\n')
            },
        }
    }

    /// The lines shown when the text area has `available_rows` rows.
    fn visible_lines(&self, available_rows: u16) -> (res: Vec<String>)
        requires
            self.wf(),
        ensures
            res@.len() == visible_line_count(self@.text, self@.row_offset, available_rows),
            forall|i: int|
                0 <= i < res@.len() ==> (#[trigger] res@[i])@ == line_text(
                    self@.text,
                    (self@.row_offset + i) as nat,
                ),
    {
        let lines = line_count_exec(&self.data_buffer);
        let mut res: Vec<String> = Vec::new();
        let end = self.row_offset + available_rows as usize;
        let mut i = self.row_offset;
        while i < end && i < lines
            invariant
                self.wf(),
                lines == line_count(self@.text),
                end == self@.row_offset + available_rows,
                self@.row_offset <= i,
                i <= end,
                i <= lines || i == self@.row_offset,
                res@.len() == i - self@.row_offset,
                forall|j: int|
                    0 <= j < res@.len() ==> (#[trigger] res@[j])@ == line_text(
                        self@.text,
                        (self@.row_offset + j) as nat,
                    ),
            decreases end - i,
        {
            proof {
                lemma_row_bounds(self@.text, i as nat);
                lemma_len_le_utf8_len(self@.text);
                assert(crate::text::line_len(self@.text, i as nat) <= self@.text.len());
            }
            let start = index_at_exec(&self.data_buffer, i, 0);
            let len = match line_len_exec(&self.data_buffer, i) {
                Some(len) => len,
                None => 0,
            };
            assert(start == crate::text::row_start(self@.text, i as nat));
            assert(len == crate::text::line_len(self@.text, i as nat));
            assert(start + len <= crate::text::row_end(self@.text, i as nat));
            let line = string_of(&self.data_buffer, start, start + len);
            let ghost before = res@;
            res.push(line);
            proof {
                assert forall|j: int|
                    0 <= j < res@.len() implies (#[trigger] res@[j])@ == line_text(
                        self@.text,
                        (self@.row_offset + j) as nat,
                    ) by {
                    if j < before.len() {
                        assert(res@[j] == before[j]);
                    }
                }
            }
            i = i + 1;
        }
        res
    }

    /// What the screen shows when the terminal has `terminal_rows` rows.
    pub fn screen(&self, terminal_rows: u16) -> (res: Screen)
        requires
            self.wf(),
            self@.selection_ok(),
        ensures
            res.status_top == sat_u16(terminal_rows - self@.log_lines),
            res.cursor == self@.cursor,
            res.status_messages@.map_values(|m: String| m@) == self@.log,
            match res.body {
                ScreenBody::Lines(lines) => {
                    &&& self@.window is None
                    &&& lines@.len() == visible_line_count(
                        self@.text,
                        self@.row_offset,
                        sat_u16(terminal_rows - self@.log_lines),
                    )
                    &&& forall|i: int|
                        0 <= i < lines@.len() ==> (#[trigger] lines@[i])@ == line_text(
                            self@.text,
                            (self@.row_offset + i) as nat,
                        )
                },
                ScreenBody::Selection(before, selected, after) => {
                    let w = self@.window->0;
                    let l = char_pos_of(self@.text, if w.0 <= w.1 { w.0 } else { w.1 } as int);
                    let r = char_pos_of(self@.text, if w.0 <= w.1 { w.1 } else { w.0 } as int);
                    &&& self@.window is Some
                    &&& before@ == self@.text.subrange(0, l)
                    &&& selected@ == self@.text.subrange(l, r)
                    &&& after@ == self@.text.subrange(r, self@.text.len() as int)
                },
            },
    {
        let log_lines = self.status_log.lines_exec();
        let available_rows: u16 = if terminal_rows >= log_lines {
            terminal_rows - log_lines
        } else {
            0
        };
        let body = match self.select_window {
            None => ScreenBody::Lines(self.visible_lines(available_rows)),
            Some(window) => {
                let ghost t = self@.text;
                let left = window.get_left();
                let right = window.get_right();
                proof {
                    lemma_offset_bounded(t, char_pos_of(t, right as int));
                }
                let l = match char_index_of_byte(&self.data_buffer, left) {
                    Some(l) => l,
                    None => {
                        proof {
                            assert(false);
                        }
                        0
                    },
                };
                let r = match char_index_of_byte(&self.data_buffer, right) {
                    Some(r) => r,
                    None => {
                        proof {
                            assert(false);
                        }
                        0
                    },
                };
                proof {
                    lemma_offset_unique(t, l as int, char_pos_of(t, left as int));
                    lemma_offset_unique(t, r as int, char_pos_of(t, right as int));
                    if r < l {
                        lemma_offset_monotone(t, r as int, l as int);
                    }
                }
                ScreenBody::Selection(
                    string_of(&self.data_buffer, 0, l),
                    string_of(&self.data_buffer, l, r),
                    string_of(&self.data_buffer, r, self.data_buffer.len()),
                )
            },
        };
        let messages = self.status_log.messages_exec();
        let mut status_messages: Vec<String> = Vec::new();
        let mut i: usize = 0;
        while i < messages.len()
            invariant
                i <= messages@.len(),
                messages@.map_values(|m: String| m@) == self@.log,
                status_messages@.len() == i,
                forall|j: int| 0 <= j < i ==> (#[trigger] status_messages@[j])@ == messages@[j]@,
            decreases messages@.len() - i,
        {
            status_messages.push(messages[i].clone());
            i = i + 1;
        }
        assert(status_messages@.map_values(|m: String| m@) =~= self@.log);
        Screen {
            body,
            status_top: available_rows,
            status_messages,
            cursor: self.cursor_pos,
        }
    }

    pub fn cursor_pos(&self) -> (res: (u16, u16))
        ensures
            res == self@.cursor,
    {
        self.cursor_pos
    }

    pub fn buffer_pos(&self) -> (res: usize)
        requires
            self.wf(),
        ensures
            res == self@.byte_pos(),
    {
        self.buffer_pos
    }
}

} // verus!
