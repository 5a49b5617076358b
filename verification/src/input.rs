//! What a key press does to the editor, and what the main loop does next.
//! The loop itself (reading keys, saving, drawing) stands outside the library.

use vstd::prelude::*;
use vstd::string::StringExecFns;
use crate::editor::Editor;
use crate::editor_model::{EditorModel, first_from, is_first_from, lemma_first_unique, cursor_for, drag_origin, law_drag_cols_keeps_origin, law_move_cols_stays_in_row, law_move_rows_target, decimal, digit_char, positions_message};
use crate::text::{push_char, chars_of, find_forward, byte_offset, col_of, line_count, row_end, row_of, row_start, lemma_row_end_exists, lemma_row_start_exists, lemma_same_row};

verus! {

/// The keys the editor tells apart.
#[derive(Clone, Copy, PartialEq, Eq, Debug)]
pub enum Key {
    Char(char),
    Backspace,
    Enter,
    Tab,
    Up,
    Down,
    Left,
    Right,
    Esc,
    Other,
}

/// A key event: the key, the modifiers held, and whether it is a press
/// (rather than a repeat or a release).
#[derive(Clone, Copy, PartialEq, Eq, Debug)]
pub struct KeyPress {
    pub code: Key,
    pub control: bool,
    pub shift: bool,
    pub is_press: bool,
}

/// What the main loop does after a key event.
#[derive(Clone, Copy, PartialEq, Eq, Debug)]
pub enum LoopStep {
    /// Wait for the next event without redrawing.
    Ignore,
    /// Redraw the screen.
    Redraw,
    /// Save the file, log the outcome, then redraw.
    Save,
    /// Scroll up by the terminal's height, log the positions, then redraw.
    PageUp,
    /// Scroll down by the terminal's height, log the positions, then redraw.
    PageDown,
    /// Clear the screen and leave.
    Exit,
    /// The edit cannot be made: its selection no longer lies on character
    /// boundaries of the text, or the text would outgrow a string.
    Abort,
}

/// Moving left or right by one column; when the cursor did not move on
/// screen, moving to the next line instead, otherwise closing the selection.
pub open spec fn step_cols(m: EditorModel, n: isize) -> (EditorModel, LoopStep) {
    let (m1, moved) = m.move_cols(n);
    if moved == 0 {
        if first_from(m1.text, m1.pos as int, '\n') is None && !m1.can_insert('\n') {
            (m1, LoopStep::Abort)
        } else {
            (m1.move_next_line().log_positions(), LoopStep::Redraw)
        }
    } else {
        (m1.close_select_window().log_positions(), LoopStep::Redraw)
    }
}

/// What a key event does to the editor, and what the loop does next.
pub open spec fn step_model(m: EditorModel, event: KeyPress) -> (EditorModel, LoopStep) {
    if !event.is_press {
        (m, LoopStep::Ignore)
    } else {
        match event.code {
            Key::Char(c) => {
                if event.control && c == 's' {
                    (m, LoopStep::Save)
                } else if event.control && c == 'z' {
                    (m.undo().log_positions(), LoopStep::Redraw)
                } else if event.control && c == 'y' {
                    (m.redo().log_positions(), LoopStep::Redraw)
                } else if !m.can_insert(c) {
                    (m, LoopStep::Abort)
                } else {
                    (m.insert_char(c).close_select_window().log_positions(), LoopStep::Redraw)
                }
            },
            Key::Backspace => {
                if !m.selection_ok() {
                    (m, LoopStep::Abort)
                } else {
                    (m.delete_char().close_select_window().log_positions(), LoopStep::Redraw)
                }
            },
            Key::Enter => {
                if !m.can_insert('\n') {
                    (m, LoopStep::Abort)
                } else {
                    (m.insert_char('\n').log_positions(), LoopStep::Redraw)
                }
            },
            Key::Tab => (m, LoopStep::Redraw),
            Key::Up => {
                if event.control {
                    (m, LoopStep::PageUp)
                } else {
                    (m.move_rows(-1i16).0.log_positions(), LoopStep::Redraw)
                }
            },
            Key::Down => {
                if event.control {
                    (m, LoopStep::PageDown)
                } else {
                    (m.move_rows(1i16).0.log_positions(), LoopStep::Redraw)
                }
            },
            Key::Left => {
                if event.control && event.shift {
                    (m.snap_drag_left().log_positions(), LoopStep::Redraw)
                } else if event.shift {
                    (m.drag_cols(-1isize).0.log_positions(), LoopStep::Redraw)
                } else {
                    step_cols(m, -1isize)
                }
            },
            Key::Right => {
                if event.control && event.shift {
                    (m.snap_drag_right().log_positions(), LoopStep::Redraw)
                } else if event.shift {
                    (m.drag_cols(1isize).0.log_positions(), LoopStep::Redraw)
                } else {
                    step_cols(m, 1isize)
                }
            },
            Key::Esc => (m, LoopStep::Exit),
            Key::Other => (m, LoopStep::Redraw),
        }
    }
}

/// The character of the decimal digit `d`.
fn digit_char_exec(d: usize) -> (c: char)
    requires
        d < 10,
    ensures
        c == digit_char(d as nat),
{
    ((48 + d) as u8) as char
}

/// Appends the decimal digits of `n` to `s`.
fn push_decimal(s: &mut String, n: usize)
    ensures
        final(s)@ == old(s)@ + decimal(n as nat),
    decreases n,
{
    if n >= 10 {
        push_decimal(s, n / 10);
    }
    push_char(s, digit_char_exec(n % 10));
    assert(final(s)@ =~= old(s)@ + decimal(n as nat)) by {
        if n >= 10 {
            assert(decimal(n as nat) == decimal((n / 10) as nat).push(digit_char((n % 10) as nat)));
        }
    }
}

/// Records in the status log where the cursor stands on screen and in bytes.
pub fn log_positions(editor: &mut Editor)
    requires
        old(editor).wf(),
    ensures
        final(editor).wf(),
        final(editor)@ == old(editor)@.log_positions(),
{
    let cursor = editor.cursor_pos();
    let pos = editor.buffer_pos();
    let mut message = String::new();
    message.append("Cursor position: (");
    push_decimal(&mut message, cursor.0 as usize);
    message.append(", ");
    push_decimal(&mut message, cursor.1 as usize);
    message.append(") | Buffer position: ");
    push_decimal(&mut message, pos);
    assert(message@ =~= positions_message(cursor, pos as nat));
    editor.log(message);
}

/// Moving by one column with the arrow keys (see `step_cols`).
fn handle_cols(editor: &mut Editor, n: isize) -> (step: LoopStep)
    requires
        old(editor).wf(),
        n == 1 || n == -1,
    ensures
        final(editor).wf(),
        (final(editor)@, step) == step_cols(old(editor)@, n),
{
    if editor.move_cols(n) == 0 {
        if !editor.can_move_next_line() {
            return LoopStep::Abort;
        }
        let _ = editor.move_next_line();
    } else {
        editor.close_select_window();
    }
    log_positions(editor);
    LoopStep::Redraw
}

/// Applies a key event to the editor and says what the main loop does next.
pub fn handle_key(editor: &mut Editor, event: KeyPress) -> (step: LoopStep)
    requires
        old(editor).wf(),
    ensures
        final(editor).wf(),
        (final(editor)@, step) == step_model(old(editor)@, event),
{
    if !event.is_press {
        return LoopStep::Ignore;
    }
    match event.code {
        Key::Char(c) => {
            if event.control && c == 's' {
                LoopStep::Save
            } else if event.control && c == 'z' {
                editor.undo();
                log_positions(editor);
                LoopStep::Redraw
            } else if event.control && c == 'y' {
                editor.redo();
                log_positions(editor);
                LoopStep::Redraw
            } else if !editor.can_insert(c) {
                LoopStep::Abort
            } else {
                editor.insert_char(c);
                editor.close_select_window();
                log_positions(editor);
                LoopStep::Redraw
            }
        },
        Key::Backspace => {
            if !editor.selection_in_bounds() {
                LoopStep::Abort
            } else {
                editor.delete_char();
                editor.close_select_window();
                log_positions(editor);
                LoopStep::Redraw
            }
        },
        Key::Enter => {
            if !editor.can_insert('\n') {
                LoopStep::Abort
            } else {
                editor.insert_char('\n');
                log_positions(editor);
                LoopStep::Redraw
            }
        },
        Key::Tab => LoopStep::Redraw,
        Key::Up => {
            if event.control {
                LoopStep::PageUp
            } else {
                editor.move_rows(-1);
                log_positions(editor);
                LoopStep::Redraw
            }
        },
        Key::Down => {
            if event.control {
                LoopStep::PageDown
            } else {
                editor.move_rows(1);
                log_positions(editor);
                LoopStep::Redraw
            }
        },
        Key::Left => {
            if event.control && event.shift {
                editor.snap_drag_left();
                log_positions(editor);
                LoopStep::Redraw
            } else if event.shift {
                editor.drag_cols(-1);
                log_positions(editor);
                LoopStep::Redraw
            } else {
                handle_cols(editor, -1)
            }
        },
        Key::Right => {
            if event.control && event.shift {
                editor.snap_drag_right();
                log_positions(editor);
                LoopStep::Redraw
            } else if event.shift {
                editor.drag_cols(1);
                log_positions(editor);
                LoopStep::Redraw
            } else {
                handle_cols(editor, 1)
            }
        },
        Key::Esc => LoopStep::Exit,
        Key::Other => LoopStep::Redraw,
    }
}


/// A key press of `code` with the given modifiers.
pub open spec fn key(code: Key, control: bool, shift: bool) -> KeyPress {
    KeyPress { code, control, shift, is_press: true }
}

/// Shift+Left moves the cursor one character left unless it stands at the
/// start of its row, Shift+Right one character right unless it stands at the
/// end of its row; either way the selection runs from its origin (kept when
/// one is open) to the cursor, and the text is untouched.
pub proof fn law_shift_arrows_move_one(m: EditorModel)
    requires
        m.wf(),
    ensures
        ({
            let t = m.text;
            let (l, ls) = step_model(m, key(Key::Left, false, true));
            let (r, rs) = step_model(m, key(Key::Right, false, true));
            &&& ls == LoopStep::Redraw && rs == LoopStep::Redraw
            &&& l.text == t && r.text == t
            &&& l.pos == if m.pos > 0 && t[m.pos - 1] != '\n' { (m.pos - 1) as nat } else { m.pos }
            &&& r.pos == if m.pos < t.len() && t[m.pos as int] != '\n' { m.pos + 1 } else { m.pos }
            &&& l.window == Some((drag_origin(m), byte_offset(t, l.pos as int) as usize))
            &&& r.window == Some((drag_origin(m), byte_offset(t, r.pos as int) as usize))
        }),
{
    let t = m.text;
    let k = m.pos as int;
    law_drag_cols_keeps_origin(m, -1isize);
    law_drag_cols_keeps_origin(m, 1isize);
    law_move_cols_stays_in_row(m, -1isize);
    law_move_cols_stays_in_row(m, 1isize);
    lemma_row_start_exists(t, k);
    lemma_row_end_exists(t, k);
    let s = row_start(t, row_of(t, k));
    let e = row_end(t, row_of(t, k));
    lemma_same_row(t, s, k);
    lemma_same_row(t, k, e);
}

/// The Down and Up arrows, with the cursor drawn where the position is,
/// below the scroll offset, in a text short enough for screen coordinates,
/// move the position one row down (at most to the last line) or one row up
/// (at least to the scroll offset), and leave the text alone.
pub proof fn law_up_down_arrows(m: EditorModel)
    requires
        m.wf(),
        m.cursor == cursor_for(m.text, m.pos, m.row_offset),
        m.text.len() < u16::MAX,
        m.row_offset <= row_of(m.text, m.pos as int),
        row_of(m.text, m.pos as int) < line_count(m.text),
    ensures
        ({
            let t = m.text;
            let row = row_of(t, m.pos as int);
            let down = step_model(m, key(Key::Down, false, false)).0;
            let up = step_model(m, key(Key::Up, false, false)).0;
            &&& down.text == t && up.text == t
            &&& row + 1 < line_count(t) ==> row_of(t, down.pos as int) == row + 1
            &&& row + 1 >= line_count(t) ==> row_of(t, down.pos as int) == row
            &&& row > m.row_offset ==> row_of(t, up.pos as int) == row - 1
            &&& row == m.row_offset ==> row_of(t, up.pos as int) == row
        }),
{
    law_move_rows_target(m, 1i16);
    law_move_rows_target(m, -1i16);
}

/// The Right arrow, with the cursor drawn where the position is and a row
/// short enough for screen columns: inside a row it moves one character
/// right and closes the selection; at a row's newline it moves past it, to
/// the start of the next row.
pub proof fn law_right_arrow(m: EditorModel)
    requires
        m.wf(),
        m.cursor == cursor_for(m.text, m.pos, m.row_offset),
        col_of(m.text, row_end(m.text, row_of(m.text, m.pos as int))) < u16::MAX,
    ensures
        ({
            let t = m.text;
            let (p, step) = step_model(m, key(Key::Right, false, false));
            &&& m.pos < t.len() && t[m.pos as int] != '\n' ==> step == LoopStep::Redraw && p.text == t
                && p.pos == m.pos + 1 && p.window is None
            &&& m.pos < t.len() && t[m.pos as int] == '\n' ==> step == LoopStep::Redraw && p.text == t
                && p.pos == m.pos + 1 && row_of(t, p.pos as int) == row_of(t, m.pos as int) + 1
                && col_of(t, p.pos as int) == 0
        }),
{
    let t = m.text;
    let k = m.pos as int;
    law_move_cols_stays_in_row(m, 1isize);
    lemma_row_start_exists(t, k);
    lemma_row_end_exists(t, k);
    let s = row_start(t, row_of(t, k));
    let e = row_end(t, row_of(t, k));
    lemma_same_row(t, k, e);
    let m1 = m.move_cols(1isize).0;
    lemma_row_start_exists(t, m1.pos as int);
    lemma_row_start_exists(t, e);
    if k < t.len() && t[k] == '\n' {
        assert(e == k);
        assert(m1.pos == k);
        assert(m.move_cols(1isize).1 == 0);
        assert(is_first_from(t, k, '\n', k));
        lemma_first_unique(t, k, '\n', k);
        assert(m1.move_next_line().pos == k + 1);
    } else if k < t.len() {
        assert(m1.pos == k + 1);
        assert(col_of(t, k + 1) == col_of(t, k) + 1);
        assert(col_of(t, k + 1) <= col_of(t, e)) by {
            lemma_same_row(t, k + 1, e);
        }
        assert(m.move_cols(1isize).1 == 1);
    }
}

/// Keys that leave the editor alone: a release or repeat is ignored; Ctrl+S
/// asks the loop to save, Ctrl+Up and Ctrl+Down to scroll by a page, Esc to
/// leave; Tab only redraws.
pub proof fn law_keys_without_edit(m: EditorModel, code: Key, control: bool, shift: bool)
    requires
        m.wf(),
    ensures
        step_model(m, KeyPress { code, control, shift, is_press: false }) == (m, LoopStep::Ignore),
        step_model(m, key(Key::Char('s'), true, shift)) == (m, LoopStep::Save),
        step_model(m, key(Key::Up, true, shift)) == (m, LoopStep::PageUp),
        step_model(m, key(Key::Down, true, shift)) == (m, LoopStep::PageDown),
        step_model(m, key(Key::Esc, control, shift)) == (m, LoopStep::Exit),
        step_model(m, key(Key::Tab, control, shift)) == (m, LoopStep::Redraw),
{
}

/// Typing a character (other than Ctrl+S, Ctrl+Z or Ctrl+Y), Enter and
/// Backspace edit the text as typing and deleting do, close the selection
/// and log the cursor's place; when the edit cannot be made the loop is
/// told to abort and the editor is left alone. Ctrl+Z and Ctrl+Y undo and redo.
pub proof fn law_editing_keys(m: EditorModel, c: char, control: bool, shift: bool)
    requires
        m.wf(),
        !(control && (c == 's' || c == 'z' || c == 'y')),
    ensures
        ({
            let (p, step) = step_model(m, key(Key::Char(c), control, shift));
            &&& m.can_insert(c) ==> step == LoopStep::Redraw && p.text == m.insert_char(c).text
                && p.pos == m.insert_char(c).pos && p.window is None
                && p.log.last() == positions_message(p.cursor, p.byte_pos())
            &&& !m.can_insert(c) ==> step == LoopStep::Abort && p == m
        }),
        ({
            let (p, step) = step_model(m, key(Key::Enter, control, shift));
            &&& m.can_insert('\n') ==> step == LoopStep::Redraw && p.text == m.insert_char('\n').text
                && p.pos == m.insert_char('\n').pos
            &&& !m.can_insert('\n') ==> step == LoopStep::Abort && p == m
        }),
        ({
            let (p, step) = step_model(m, key(Key::Backspace, control, shift));
            &&& m.selection_ok() ==> step == LoopStep::Redraw && p.text == m.delete_char().text
                && p.pos == m.delete_char().pos && p.window is None
            &&& !m.selection_ok() ==> step == LoopStep::Abort && p == m
        }),
        step_model(m, key(Key::Char('z'), true, shift)).0.text == m.undo().text,
        step_model(m, key(Key::Char('y'), true, shift)).0.text == m.redo().text,
{
}

/// The file to open: the first argument, or "test" when there is none, with
/// ".txt" added when the name holds no dot.
pub open spec fn file_name_model(args: Seq<Seq<char>>) -> Seq<char> {
    let name = if args.len() > 0 { args[0] } else { "test"@ };
    if name.contains('.') {
        name
    } else {
        name + ".txt"@
    }
}

/// The file to open, from the command-line arguments (without the program name).
pub fn file_name_from_args(args: Vec<String>) -> (res: String)
    ensures
        res@ == file_name_model(args@.map_values(|a: String| a@)),
{
    let mut name = if args.len() > 0 {
        args[0].clone()
    } else {
        "test".to_owned()
    };
    let chars = chars_of(&name);
    match find_forward(&chars, 0, '.') {
        Some(j) => {
            assert(name@[j as int] == '.');
        },
        None => {
            assert(!name@.contains('.'));
            name.append(".txt");
        },
    }
    name
}

} // verus!
