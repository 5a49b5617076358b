use text_editor::editor::{Editor, ScreenBody, SelectWindow, StatusLog};
use text_editor::input::{file_name_from_args, handle_key, log_positions, Key, KeyPress, LoopStep};

fn editor(text: &str) -> Editor {
    Editor::new(text.to_string(), String::from("notes.txt"))
}

fn lines_shown(e: &Editor, rows: u16) -> Vec<String> {
    match e.screen(rows).body {
        ScreenBody::Lines(lines) => lines,
        ScreenBody::Selection(..) => panic!("expected lines"),
    }
}

fn log_of(e: &Editor) -> Vec<String> {
    e.screen(20).status_messages
}

fn press(code: Key) -> KeyPress {
    KeyPress { code, control: false, shift: false, is_press: true }
}

fn ctrl(code: Key) -> KeyPress {
    KeyPress { code, control: true, shift: false, is_press: true }
}

#[test]
fn new_editor_starts_at_the_top() {
    let e = editor("hello\nworld");
    assert_eq!(e.contents(), "hello\nworld");
    assert_eq!(e.buffer_pos(), 0);
    assert_eq!(e.cursor_pos(), (0, 0));
    assert_eq!(e.file_name(), "notes.txt");
}

#[test]
fn insert_char_moves_the_cursor_past_it() {
    let mut e = editor("hello");
    e.move_cols(2);
    e.insert_char('X');
    assert_eq!(e.contents(), "heXllo");
    assert_eq!(e.buffer_pos(), 3);
    assert_eq!(e.cursor_pos(), (3, 0));
}

#[test]
fn insert_multibyte_char_counts_bytes() {
    let mut e = editor("ab");
    e.move_cols(1);
    e.insert_char('é');
    assert_eq!(e.contents(), "aéb");
    assert_eq!(e.buffer_pos(), 3);
    assert_eq!(e.cursor_pos(), (2, 0));
    e.insert_char('😀');
    assert_eq!(e.buffer_pos(), 7);
    assert_eq!(e.cursor_pos(), (3, 0));
}

#[test]
fn insert_newline_starts_a_row() {
    let mut e = editor("abcd");
    e.move_cols(2);
    e.insert_char('\n');
    assert_eq!(e.contents(), "ab\ncd");
    assert_eq!(e.cursor_pos(), (0, 1));
    assert_eq!(e.buffer_pos(), 3);
}

#[test]
fn delete_char_removes_the_char_before_the_cursor() {
    let mut e = editor("aéb");
    e.move_cols(2);
    assert_eq!(e.buffer_pos(), 3);
    e.delete_char();
    assert_eq!(e.contents(), "ab");
    assert_eq!(e.buffer_pos(), 1);
    assert_eq!(e.cursor_pos(), (1, 0));
}

#[test]
fn delete_char_at_start_does_nothing() {
    let mut e = editor("abc");
    e.delete_char();
    assert_eq!(e.contents(), "abc");
    assert_eq!(e.buffer_pos(), 0);
    // nothing was saved: undo has nothing to go back to
    e.undo();
    assert_eq!(e.contents(), "abc");
}

#[test]
fn delete_after_insert_restores_text_and_position() {
    let mut e = editor("hello world");
    e.move_cols(5);
    e.insert_char('!');
    e.delete_char();
    assert_eq!(e.contents(), "hello world");
    assert_eq!(e.buffer_pos(), 5);
}

#[test]
fn undo_after_insert_restores_text() {
    let mut e = editor("abc");
    e.insert_char('x');
    assert_eq!(e.contents(), "xabc");
    e.undo();
    assert_eq!(e.contents(), "abc");
    assert_eq!(e.cursor_pos(), (0, 0));
    assert_eq!(e.buffer_pos(), 0);
}

#[test]
fn undo_after_delete_restores_text() {
    let mut e = editor("abc");
    e.move_cols(3);
    e.delete_char();
    assert_eq!(e.contents(), "ab");
    e.undo();
    assert_eq!(e.contents(), "abc");
}

#[test]
fn redo_after_undo_restores_edit() {
    let mut e = editor("abc");
    e.insert_char('1');
    e.insert_char('2');
    e.undo();
    e.undo();
    assert_eq!(e.contents(), "abc");
    e.redo();
    assert_eq!(e.contents(), "1abc");
    assert_eq!(e.buffer_pos(), 1);
    e.redo();
    assert_eq!(e.contents(), "12abc");
    e.redo();
    assert_eq!(e.contents(), "12abc");
}

#[test]
fn edit_after_undo_drops_redo_history() {
    let mut e = editor("");
    e.insert_char('a');
    e.insert_char('b');
    e.undo();
    e.insert_char('c');
    assert_eq!(e.contents(), "ac");
    e.redo();
    assert_eq!(e.contents(), "ac");
    e.undo();
    assert_eq!(e.contents(), "a");
}

#[test]
fn move_cols_stops_at_the_ends() {
    let mut e = editor("abc");
    assert_eq!(e.move_cols(10), 3);
    assert_eq!(e.buffer_pos(), 3);
    assert_eq!(e.move_cols(-10), 3);
    assert_eq!(e.buffer_pos(), 0);
    assert_eq!(e.move_cols(-1), 0);
    assert_eq!(e.move_cols(isize::MIN), 0);
    assert_eq!(e.move_cols(isize::MAX), 3);
}

#[test]
fn move_cols_stays_on_its_row() {
    let mut e = editor("ab\ncd");
    assert_eq!(e.move_cols(2), 2);
    assert_eq!(e.cursor_pos(), (2, 0));
    // at the end of the row, moving right does not cross the newline
    assert_eq!(e.move_cols(1), 0);
    assert_eq!(e.buffer_pos(), 2);
    assert_eq!(e.cursor_pos(), (2, 0));
    assert_eq!(e.move_cols(-5), 2);
    assert_eq!(e.buffer_pos(), 0);
    e.move_next_line().unwrap();
    assert_eq!(e.buffer_pos(), 3);
    // at the start of the row, moving left does not cross the newline
    assert_eq!(e.move_cols(-1), 0);
    assert_eq!(e.buffer_pos(), 3);
    assert_eq!(e.move_cols(5), 2);
    assert_eq!(e.buffer_pos(), 5);
    assert_eq!(e.cursor_pos(), (2, 1));
}

#[test]
fn move_cols_from_inside_a_row_stops_at_its_ends() {
    let mut e = editor("a\nbcd\ne");
    e.move_next_line().unwrap();
    e.move_cols(1);
    assert_eq!(e.cursor_pos(), (1, 1));
    assert_eq!(e.move_cols(isize::MAX), 2);
    assert_eq!(e.cursor_pos(), (3, 1));
    assert_eq!(e.buffer_pos(), 5);
    assert_eq!(e.move_cols(isize::MIN), 3);
    assert_eq!(e.cursor_pos(), (0, 1));
    assert_eq!(e.buffer_pos(), 2);
}

#[test]
fn move_cols_there_and_back() {
    let mut e = editor("héllo wörld");
    e.move_cols(3);
    let pos = e.buffer_pos();
    e.move_cols(5);
    e.move_cols(-5);
    assert_eq!(e.buffer_pos(), pos);
    assert_eq!(pos, 4);
}

#[test]
fn move_rows_clamps_column_to_line_length() {
    let mut e = editor("hello\nhi\nthere");
    e.move_cols(4);
    assert_eq!(e.move_rows(1), 1);
    assert_eq!(e.cursor_pos(), (2, 1));
    assert_eq!(e.buffer_pos(), 8);
    assert_eq!(e.move_rows(1), 1);
    assert_eq!(e.cursor_pos(), (2, 2));
    assert_eq!(e.buffer_pos(), 11);
    assert_eq!(e.move_rows(5), 0);
    assert_eq!(e.cursor_pos(), (2, 2));
    assert_eq!(e.move_rows(-10), 2);
    assert_eq!(e.cursor_pos(), (2, 0));
    assert_eq!(e.buffer_pos(), 2);
}

#[test]
fn move_rows_on_empty_text() {
    let mut e = editor("");
    assert_eq!(e.move_rows(3), 0);
    assert_eq!(e.cursor_pos(), (0, 0));
    assert_eq!(e.buffer_pos(), 0);
}

#[test]
fn move_rows_ignores_carriage_return_in_line_length() {
    let mut e = editor("abcd\r\nxy\r\nlong line");
    e.move_rows(2);
    e.move_cols(4);
    assert_eq!(e.cursor_pos(), (4, 2));
    e.move_rows(-1);
    assert_eq!(e.cursor_pos(), (2, 1));
}

#[test]
fn move_next_line_goes_past_the_newline() {
    let mut e = editor("ab\ncd");
    e.move_next_line().unwrap();
    assert_eq!(e.buffer_pos(), 3);
    assert_eq!(e.cursor_pos(), (0, 1));
    // no newline left: one is typed
    e.move_next_line().unwrap();
    assert_eq!(e.contents(), "ab\n\ncd");
    assert_eq!(e.cursor_pos(), (0, 2));
}

#[test]
fn drag_cols_selects_and_insert_replaces() {
    let mut e = editor("hello world");
    e.move_cols(6);
    assert_eq!(e.drag_cols(3), 3);
    assert!(e.select_window_active());
    match e.screen(10).body {
        ScreenBody::Selection(before, sel, after) => {
            assert_eq!(before, "hello ");
            assert_eq!(sel, "wor");
            assert_eq!(after, "ld");
        }
        ScreenBody::Lines(_) => panic!("expected a selection"),
    }
    e.insert_char('W');
    assert_eq!(e.contents(), "hello Wld");
    assert!(!e.select_window_active());
    assert_eq!(e.buffer_pos(), 7);
}

#[test]
fn drag_backwards_then_delete() {
    let mut e = editor("abcdef");
    e.move_cols(4);
    e.drag_cols(-1);
    e.drag_cols(-2);
    e.delete_char();
    assert_eq!(e.contents(), "aef");
    assert_eq!(e.buffer_pos(), 1);
}

#[test]
fn drag_rows_selects_lines() {
    let mut e = editor("ab\ncd\nef");
    e.move_cols(1);
    assert_eq!(e.drag_rows(1), 1);
    e.delete_char();
    assert_eq!(e.contents(), "ad\nef");
}

#[test]
fn close_select_window_closes_it() {
    let mut e = editor("abc");
    e.drag_cols(1);
    e.close_select_window();
    assert!(!e.select_window_active());
}

#[test]
fn snap_drag_right_selects_to_next_space() {
    let mut e = editor("one two three");
    e.snap_drag_right();
    assert_eq!(e.buffer_pos(), 3);
    e.delete_char();
    assert_eq!(e.contents(), " two three");
}

#[test]
fn snap_drag_right_without_space_selects_to_end() {
    let mut e = editor("one two");
    e.move_cols(4);
    e.snap_drag_right();
    assert_eq!(e.buffer_pos(), 7);
    e.delete_char();
    assert_eq!(e.contents(), "one ");
}

#[test]
fn snap_drag_left_selects_back_to_last_space() {
    let mut e = editor("one two three");
    e.move_cols(9);
    e.snap_drag_left();
    assert_eq!(e.buffer_pos(), 7);
    e.delete_char();
    assert_eq!(e.contents(), "one twohree");
}

#[test]
fn snap_drag_left_without_space_does_nothing() {
    let mut e = editor("onetwo");
    e.move_cols(3);
    e.snap_drag_left();
    assert_eq!(e.buffer_pos(), 3);
    assert!(!e.select_window_active());
}

#[test]
fn next_and_last_char_positions_are_byte_offsets() {
    let mut e = editor("é x é x");
    e.move_cols(3);
    assert_eq!(e.buffer_pos(), 4);
    assert_eq!(e.get_next_char_pos('x'), Some(8));
    assert_eq!(e.get_next_char_pos('é'), Some(5));
    assert_eq!(e.get_next_char_pos(' '), Some(4));
    assert_eq!(e.get_next_char_pos('z'), None);
    assert_eq!(e.get_last_char_pos('é'), Some(0));
    assert_eq!(e.get_last_char_pos(' '), Some(2));
    assert_eq!(e.get_last_char_pos('x'), Some(3));
    assert_eq!(e.get_last_char_pos('z'), None);
    assert_eq!(e.buffer_pos(), 4);
}

#[test]
fn page_down_and_up_scroll() {
    let mut e = editor("a\nb\nc\nd\ne");
    e.page_down(2);
    assert_eq!(lines_shown(&e, 8), vec!["c", "d", "e"]);
    assert_eq!(e.buffer_pos(), 4);
    e.page_down(10);
    assert_eq!(lines_shown(&e, 8), Vec::<String>::new());
    assert_eq!(e.buffer_pos(), 9);
    e.page_up(3);
    assert_eq!(lines_shown(&e, 7), vec!["c", "d"]);
    e.page_up(30);
    assert_eq!(lines_shown(&e, 7), vec!["a", "b"]);
}

#[test]
fn screen_strips_line_endings() {
    let e = editor("one\r\ntwo\nthree\n");
    let screen = e.screen(24);
    match screen.body {
        ScreenBody::Lines(lines) => assert_eq!(lines, vec!["one", "two", "three"]),
        ScreenBody::Selection(..) => panic!("expected lines"),
    }
    assert_eq!(screen.status_top, 19);
    assert_eq!(screen.cursor, (0, 0));
    assert_eq!(e.screen(3).status_top, 0);
}

#[test]
fn status_log_keeps_four_messages() {
    let mut e = editor("");
    for i in 0..6 {
        e.log(format!("m{}", i));
    }
    assert_eq!(log_of(&e), vec!["m2", "m3", "m4", "m5"]);
}

#[test]
fn status_log_print_drops_oldest() {
    let mut log = StatusLog::new(3);
    log.print("a");
    log.print("b");
    log.print("c");
    assert_eq!(log.messages_exec(), &vec![String::from("b"), String::from("c")]);
    assert_eq!(log.lines_exec(), 3);
}

#[test]
fn select_window_ends_when_pivot_is_left() {
    let w = SelectWindow { origin: 9, pivot: 4 };
    assert_eq!(w.get_left(), 4);
    assert_eq!(w.get_right(), 9);
}

#[test]
fn select_window_ends_when_origin_is_left() {
    let w = SelectWindow { origin: 2, pivot: 7 };
    assert_eq!(w.get_left(), 2);
    assert_eq!(w.get_right(), 7);
}

#[test]
fn log_positions_formats_the_message() {
    let mut e = editor("aé\nbc");
    e.move_next_line().unwrap();
    e.move_cols(1);
    log_positions(&mut e);
    assert_eq!(log_of(&e), vec!["Cursor position: (1, 1) | Buffer position: 5"]);
}

#[test]
fn log_positions_with_large_numbers() {
    let text: String = std::iter::repeat('a').take(1234).collect();
    let mut e = editor(&text);
    e.move_cols(1230);
    log_positions(&mut e);
    assert_eq!(log_of(&e), vec!["Cursor position: (1230, 0) | Buffer position: 1230"]);
}

#[test]
fn handle_key_types_and_logs() {
    let mut e = editor("");
    assert_eq!(handle_key(&mut e, press(Key::Char('h'))), LoopStep::Redraw);
    assert_eq!(handle_key(&mut e, press(Key::Char('i'))), LoopStep::Redraw);
    assert_eq!(handle_key(&mut e, press(Key::Enter)), LoopStep::Redraw);
    assert_eq!(e.contents(), "hi\n");
    assert_eq!(log_of(&e).last().unwrap(), "Cursor position: (0, 1) | Buffer position: 3");
    assert_eq!(handle_key(&mut e, press(Key::Backspace)), LoopStep::Redraw);
    assert_eq!(e.contents(), "hi");
}

#[test]
fn handle_key_control_keys() {
    let mut e = editor("x");
    assert_eq!(handle_key(&mut e, ctrl(Key::Char('s'))), LoopStep::Save);
    assert_eq!(handle_key(&mut e, press(Key::Char('a'))), LoopStep::Redraw);
    assert_eq!(handle_key(&mut e, ctrl(Key::Char('z'))), LoopStep::Redraw);
    assert_eq!(e.contents(), "x");
    assert_eq!(handle_key(&mut e, ctrl(Key::Char('y'))), LoopStep::Redraw);
    assert_eq!(e.contents(), "ax");
    assert_eq!(handle_key(&mut e, ctrl(Key::Up)), LoopStep::PageUp);
    assert_eq!(handle_key(&mut e, ctrl(Key::Down)), LoopStep::PageDown);
    assert_eq!(handle_key(&mut e, press(Key::Esc)), LoopStep::Exit);
    assert_eq!(handle_key(&mut e, press(Key::Tab)), LoopStep::Redraw);
    assert_eq!(handle_key(&mut e, press(Key::Other)), LoopStep::Redraw);
    // other control characters are typed
    assert_eq!(handle_key(&mut e, ctrl(Key::Char('q'))), LoopStep::Redraw);
    assert_eq!(e.contents(), "aqx");
}

#[test]
fn handle_key_ignores_releases() {
    let mut e = editor("x");
    let release = KeyPress { code: Key::Char('a'), control: false, shift: false, is_press: false };
    assert_eq!(handle_key(&mut e, release), LoopStep::Ignore);
    assert_eq!(e.contents(), "x");
}

#[test]
fn handle_key_arrows() {
    let mut e = editor("ab\ncd");
    assert_eq!(handle_key(&mut e, press(Key::Right)), LoopStep::Redraw);
    assert_eq!(e.buffer_pos(), 1);
    assert_eq!(handle_key(&mut e, press(Key::Down)), LoopStep::Redraw);
    assert_eq!(e.cursor_pos(), (1, 1));
    assert_eq!(handle_key(&mut e, press(Key::Up)), LoopStep::Redraw);
    assert_eq!(e.cursor_pos(), (1, 0));
    // at the start, left does not move the column: the cursor goes to the next line
    let mut e = editor("ab\ncd");
    assert_eq!(handle_key(&mut e, press(Key::Left)), LoopStep::Redraw);
    assert_eq!(e.buffer_pos(), 3);
    assert_eq!(e.cursor_pos(), (0, 1));
    // at the end of a row, right goes to the start of the next row
    let mut e = editor("ab\ncd");
    e.move_cols(2);
    assert_eq!(handle_key(&mut e, press(Key::Right)), LoopStep::Redraw);
    assert_eq!(e.buffer_pos(), 3);
    assert_eq!(e.cursor_pos(), (0, 1));
    // at the end of the text, right adds a line
    e.move_cols(2);
    assert_eq!(handle_key(&mut e, press(Key::Right)), LoopStep::Redraw);
    assert_eq!(e.contents(), "ab\ncd\n");
    assert_eq!(e.cursor_pos(), (0, 2));
}

#[test]
fn save_result_is_logged() {
    let mut e = editor("hi");
    assert_eq!(handle_key(&mut e, ctrl(Key::Char('s'))), LoopStep::Save);
    e.log_save_result(Ok(()));
    assert_eq!(log_of(&e), vec!["File saved!"]);
    e.log_save_result(Err(String::from("disk full")));
    assert_eq!(log_of(&e), vec!["File saved!", "Error saving file: disk full"]);
    assert_eq!(e.contents(), "hi");
    assert_eq!(e.buffer_pos(), 0);
}

#[test]
fn handle_key_shift_arrows_select() {
    let mut e = editor("one two");
    let shift_right = KeyPress { code: Key::Right, control: false, shift: true, is_press: true };
    handle_key(&mut e, shift_right);
    handle_key(&mut e, shift_right);
    handle_key(&mut e, press(Key::Char('X')));
    assert_eq!(e.contents(), "Xe two");
    let ctrl_shift_right = KeyPress { code: Key::Right, control: true, shift: true, is_press: true };
    handle_key(&mut e, ctrl_shift_right);
    assert_eq!(e.buffer_pos(), 2);
    handle_key(&mut e, press(Key::Backspace));
    assert_eq!(e.contents(), "X two");
}

#[test]
fn handle_key_aborts_on_stale_selection() {
    let mut e = editor("");
    handle_key(&mut e, press(Key::Char('é')));
    let shift_left = KeyPress { code: Key::Left, control: false, shift: true, is_press: true };
    handle_key(&mut e, shift_left);
    assert!(e.select_window_active());
    handle_key(&mut e, ctrl(Key::Char('z')));
    assert_eq!(e.contents(), "");
    assert!(!e.selection_in_bounds());
    assert!(!e.can_insert('a'));
    assert_eq!(handle_key(&mut e, press(Key::Backspace)), LoopStep::Abort);
    assert_eq!(handle_key(&mut e, press(Key::Char('a'))), LoopStep::Abort);
    assert_eq!(handle_key(&mut e, press(Key::Enter)), LoopStep::Abort);
}

#[test]
fn can_insert_checks_the_selection() {
    let mut e = editor("abc");
    assert!(e.can_insert('z'));
    e.drag_cols(2);
    assert!(e.selection_in_bounds());
    assert!(e.can_insert('z'));
    assert!(e.can_move_next_line());
}

#[test]
fn file_name_from_args_adds_extension() {
    assert_eq!(file_name_from_args(vec![]), "test.txt");
    assert_eq!(file_name_from_args(vec![String::from("notes")]), "notes.txt");
    assert_eq!(file_name_from_args(vec![String::from("a.md"), String::from("b")]), "a.md");
}

#[test]
fn cursor_and_position_round_trip() {
    let mut e = editor("ab\ncdé\nf");
    e.move_next_line().unwrap();
    e.move_cols(3);
    let pos = e.buffer_pos();
    assert_eq!(e.cursor_pos(), (3, 1));
    assert_eq!(e.move_rows(0), 0);
    assert_eq!(e.buffer_pos(), pos);
    assert_eq!(pos, 7);
}

#[test]
fn scrolling_by_zero_keeps_the_position() {
    let mut e = editor("one\ntwo é three\nfour");
    e.move_next_line().unwrap();
    e.move_cols(5);
    let pos = e.buffer_pos();
    assert_eq!(pos, 10);
    e.page_down(0);
    assert_eq!(e.buffer_pos(), pos);
    assert_eq!(e.cursor_pos(), (5, 1));
}
