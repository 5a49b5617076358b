use text_editor::snapshot_controller::SnapshotController;
use text_editor::terminal_controller::{FileView, Header, StatusLog};
use text_editor::text_buffer::TextBuffer;

#[test]
fn snapshot_push_then_back_and_forward() {
    let mut c = SnapshotController::new(String::from("a"), (1, 0));
    c.push_snapshot(String::from("ab"), (2, 0));
    assert_eq!(c.get_current_snapshot().data, "ab");
    c.move_pointer(-1);
    let s = c.get_current_snapshot();
    assert_eq!(s.data, "a");
    assert_eq!(s.cursor_pos, (1, 0));
    c.move_pointer(1);
    assert_eq!(c.get_current_snapshot().data, "ab");
    assert_eq!(c.get_current_snapshot().cursor_pos, (2, 0));
}

#[test]
fn snapshot_pointer_is_clamped() {
    let mut c = SnapshotController::new(String::from("0"), (0, 0));
    c.push_snapshot(String::from("1"), (0, 0));
    c.push_snapshot(String::from("2"), (0, 0));
    c.move_pointer(isize::MIN);
    assert_eq!(c.get_current_snapshot().data, "0");
    c.move_pointer(isize::MAX);
    assert_eq!(c.get_current_snapshot().data, "2");
    c.move_pointer(-5);
    assert_eq!(c.get_current_snapshot().data, "0");
}

#[test]
fn snapshot_push_drops_newer_snapshots() {
    let mut c = SnapshotController::new(String::from("0"), (0, 0));
    c.push_snapshot(String::from("1"), (0, 0));
    c.push_snapshot(String::from("2"), (0, 0));
    c.move_pointer(-2);
    c.push_snapshot(String::from("x"), (3, 3));
    c.move_pointer(1);
    assert_eq!(c.get_current_snapshot().data, "x");
    c.move_pointer(-1);
    assert_eq!(c.get_current_snapshot().data, "0");
}

#[test]
fn header_reads_header() {
    let h = Header::new(String::from("ignored"));
    assert_eq!(h.text(), "Header");
    assert_eq!(h.lines(), 1);
}

#[test]
fn file_view_keeps_its_text() {
    let v = FileView::new(String::from("body"), 12);
    assert_eq!(v.text(), "body");
    assert_eq!(v.lines(), 12);
}

#[test]
fn terminal_status_log_prints() {
    let mut log = StatusLog::new(2);
    log.print("one");
    log.print("two");
    log.print("three");
    assert_eq!(log.messages(), &vec![String::from("three")]);
    assert_eq!(log.lines(), 2);
}

#[test]
fn text_buffer_writes_at_head() {
    let mut bytes = [0u8; 1024];
    bytes[0] = b'a';
    let mut b = TextBuffer::from_bytes(bytes);
    assert_eq!(b.fptr(), 0);
    b.move_head(3);
    b.write_char(b'z');
    assert_eq!(b.chars()[3], b'z');
    assert_eq!(b.chars()[0], b'a');
    b.move_head(-10);
    b.write_char(b'y');
    assert_eq!(b.chars()[0], b'y');
}

#[test]
fn text_buffer_head_saturates() {
    let mut b = TextBuffer::from_bytes([0u8; 1024]);
    b.move_head(isize::MAX);
    b.move_head(isize::MAX);
    b.move_head(isize::MAX);
    b.move_head(isize::MIN);
    b.move_head(isize::MIN);
    b.write_char(1);
    assert_eq!(b.chars()[0], 1);
}

#[test]
fn text_buffer_head_moves_back() {
    let mut b = TextBuffer::from_bytes([0u8; 1024]);
    b.move_head(700);
    b.move_head(-300);
    assert_eq!(b.head_index(), 400);
    b.move_head(300);
    assert_eq!(b.head_index(), 700);
}

#[test]
fn text_buffer_write_char_changes_only_the_head() {
    let mut b = TextBuffer::from_bytes([7u8; 1024]);
    b.move_head(1023);
    b.write_char(9);
    assert_eq!(b.chars()[1023], 9);
    assert_eq!(b.chars()[1022], 7);
    assert_eq!(b.head_index(), 1023);
    assert_eq!(b.chars().len(), 1024);
}
