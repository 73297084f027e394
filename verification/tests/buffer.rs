use miv::buffer::Buffer;
use miv::point::Point;

fn cv(s: &str) -> Vec<char> {
    s.chars().collect()
}

fn p(x: usize, y: usize) -> Point {
    Point::new(x, y)
}

#[test]
fn new_buffer_has_one_empty_line() {
    let b = Buffer::new();
    assert_eq!(b.line_len(), 1);
    assert_eq!(b.data[0], cv("\n"));
    assert!(b.filepath.is_none());
}

#[test]
fn load_splits_lines_and_terminates_each() {
    let mut b = Buffer::new();
    b.load_text(&cv("ab\ncd"));
    assert_eq!(b.line_len(), 2);
    assert_eq!(b.data[0], cv("ab\n"));
    assert_eq!(b.data[1], cv("cd\n"));
}

#[test]
fn load_empty_leaves_one_empty_line() {
    let mut b = Buffer::new();
    b.load_text(&cv(""));
    assert_eq!(b.line_len(), 1);
    assert_eq!(b.data[0], cv("\n"));
}

#[test]
fn load_drops_carriage_return_before_newline() {
    let mut b = Buffer::new();
    b.load_text(&cv("ab\r\ncd\r\n"));
    assert_eq!(b.data[0], cv("ab\n"));
    assert_eq!(b.data[1], cv("cd\n"));
}

#[test]
fn save_round_trips_terminated_text() {
    let mut b = Buffer::new();
    b.load_text(&cv("ab\ncd\n"));
    assert_eq!(b.save_text(), cv("ab\ncd\n"));
}

#[test]
fn save_terminates_final_line() {
    let mut b = Buffer::new();
    b.load_text(&cv("ab\ncd"));
    assert_eq!(b.save_text(), cv("ab\ncd\n"));
}

#[test]
fn save_of_empty_buffer_is_one_terminator() {
    let b = Buffer::new();
    assert_eq!(b.save_text(), cv("\n"));
}

#[test]
fn insert_shifts_line_right() {
    let mut b = Buffer::new();
    b.load_text(&cv("ac"));
    b.insert(p(1, 0), 'b');
    assert_eq!(b.data[0], cv("abc\n"));
}

#[test]
fn delete_returns_removed_character() {
    let mut b = Buffer::new();
    b.load_text(&cv("abc"));
    let c = b.delete(p(1, 0));
    assert_eq!(c, 'b');
    assert_eq!(b.data[0], cv("ac\n"));
}

#[test]
fn replace_overwrites_in_place() {
    let mut b = Buffer::new();
    b.load_text(&cv("abc"));
    b.replace(p(1, 0), 'x');
    assert_eq!(b.data[0], cv("axc\n"));
}

#[test]
fn upsert_inserts_at_line_marker() {
    let mut b = Buffer::new();
    b.load_text(&cv("ab"));
    // column 2 holds the trailing marker: upsert inserts instead
    b.upsert(p(2, 0), 'c');
    assert_eq!(b.data[0], cv("abc\n"));
    // column 0 holds 'a': upsert overwrites
    b.upsert(p(0, 0), 'x');
    assert_eq!(b.data[0], cv("xbc\n"));
}

#[test]
fn insert_text_splices_fragment() {
    let mut b = Buffer::new();
    b.load_text(&cv("ad"));
    b.insert_text(p(1, 0), &cv("bc"));
    assert_eq!(b.data[0], cv("abcd\n"));
}

#[test]
fn new_line_opens_below() {
    let mut b = Buffer::new();
    b.load_text(&cv("ab\ncd"));
    b.new_line(p(0, 0));
    assert_eq!(b.line_len(), 3);
    assert_eq!(b.data[1], cv("\n"));
    assert_eq!(b.data[2], cv("cd\n"));
}

#[test]
fn delete_line_shifts_up() {
    let mut b = Buffer::new();
    b.load_text(&cv("ab\ncd"));
    let removed = b.delete_line(p(0, 0));
    assert_eq!(removed, cv("ab\n"));
    assert_eq!(b.line_len(), 1);
    assert_eq!(b.data[0], cv("cd\n"));
}

#[test]
fn delete_last_line_leaves_empty_line() {
    let mut b = Buffer::new();
    b.load_text(&cv("ab"));
    let removed = b.delete_line(p(0, 0));
    assert_eq!(removed, cv("ab\n"));
    assert_eq!(b.line_len(), 1);
    assert_eq!(b.data[0], cv("\n"));
}

#[test]
fn split_line_breaks_at_column() {
    let mut b = Buffer::new();
    b.load_text(&cv("abcd"));
    b.split_line(p(2, 0));
    assert_eq!(b.data[0], cv("ab\n"));
    assert_eq!(b.data[1], cv("cd\n"));
}

#[test]
fn char_at_sees_line_contents() {
    let mut b = Buffer::new();
    b.load_text(&cv("ab"));
    assert_eq!(b.char_at(p(0, 0)), Some('a'));
    assert_eq!(b.char_at(p(2, 0)), Some('\n'));
    assert_eq!(b.char_at(p(3, 0)), None);
    assert_eq!(b.char_at(p(0, 1)), None);
}

#[test]
fn last_non_empty_col_clamps_to_line() {
    let mut b = Buffer::new();
    b.load_text(&cv("abc"));
    // a column that holds a character stands as it is
    assert_eq!(b.last_non_empty_col(p(1, 0)), 1);
    // a column past the line clamps to the last character before the marker
    assert_eq!(b.last_non_empty_col(p(99, 0)), 2);
    // an empty line clamps to column 0
    let e = Buffer::new();
    assert_eq!(e.last_non_empty_col(p(99, 0)), 0);
}
