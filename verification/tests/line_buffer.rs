use oxidread::readline::error::{BoundarySide, OxidreadError};
use oxidread::readline::line_buffer::LineBuffer;

// -- construction --

#[test]
fn new_buffer_is_empty() {
    let buf = LineBuffer::new();
    assert!(buf.is_empty());
    assert_eq!(buf.cursor(), 0);
    assert_eq!(buf.grapheme_count(), 0);
}

#[test]
fn from_str_sets_cursor_at_end() {
    let buf = LineBuffer::from_str("hello");
    assert_eq!(buf.grapheme_count(), 5);
    assert_eq!(buf.cursor(), 5);
    assert!(buf.at_end());
}

// -- insert --

#[test]
fn insert_ascii() {
    let mut buf = LineBuffer::new();
    buf.insert("hello").unwrap();
    assert_eq!(buf.as_str(), "hello");
    assert_eq!(buf.cursor(), 5);
}

#[test]
fn insert_unicode_multibyte() {
    let mut buf = LineBuffer::new();
    buf.insert("こんにちは").unwrap();
    assert_eq!(buf.grapheme_count(), 5);
    assert_eq!(buf.cursor(), 5);
}

#[test]
fn insert_emoji_grapheme_cluster() {
    let mut buf = LineBuffer::new();
    // 👨‍👩‍👧 is a ZWJ sequence — 1 grapheme cluster, multiple codepoints.
    buf.insert("👨‍👩‍👧").unwrap();
    assert_eq!(buf.grapheme_count(), 1);
    assert_eq!(buf.cursor(), 1);
}

#[test]
fn insert_at_middle() {
    let mut buf = LineBuffer::from_str("helo");
    buf.set_cursor(3).unwrap(); // before 'o'
    buf.insert("l").unwrap();
    assert_eq!(buf.as_str(), "hello");
    assert_eq!(buf.cursor(), 4);
}

// -- backspace / delete --

#[test]
fn backspace_removes_before_cursor() {
    let mut buf = LineBuffer::from_str("hello");
    let deleted = buf.backspace().unwrap();
    assert_eq!(deleted, "o");
    assert_eq!(buf.as_str(), "hell");
    assert_eq!(buf.cursor(), 4);
}

#[test]
fn backspace_at_start_returns_boundary_error() {
    let mut buf = LineBuffer::new();
    let err = buf.backspace().unwrap_err();
    assert!(matches!(
        err,
        OxidreadError::CursorAtBoundary {
            side: BoundarySide::Start
        }
    ));
}

#[test]
fn delete_forward_removes_at_cursor() {
    let mut buf = LineBuffer::from_str("hello");
    buf.set_cursor(1).unwrap();
    let deleted = buf.delete_forward().unwrap();
    assert_eq!(deleted, "e");
    assert_eq!(buf.as_str(), "hllo");
    assert_eq!(buf.cursor(), 1);
}

#[test]
fn backspace_unicode_grapheme() {
    let mut buf = LineBuffer::from_str("hi👨‍👩‍👧");
    // cursor is at end (3 graphemes)
    let deleted = buf.backspace().unwrap();
    // entire ZWJ cluster should be deleted
    assert_eq!(deleted, "👨‍👩‍👧");
    assert_eq!(buf.as_str(), "hi");
    assert_eq!(buf.cursor(), 2);
}

// -- cursor movement --

#[test]
fn move_to_start_and_end() {
    let mut buf = LineBuffer::from_str("hello");
    buf.move_to_start();
    assert_eq!(buf.cursor(), 0);
    buf.move_to_end();
    assert_eq!(buf.cursor(), 5);
}

#[test]
fn move_forward_word() {
    let mut buf = LineBuffer::from_str("hello world");
    buf.move_to_start();
    buf.move_forward_word();
    assert_eq!(buf.cursor(), 5); // after "hello"
    buf.move_forward_word();
    assert_eq!(buf.cursor(), 11); // after "world"
}

#[test]
fn move_backward_word() {
    let mut buf = LineBuffer::from_str("hello world");
    // cursor at end
    buf.move_backward_word();
    assert_eq!(buf.cursor(), 6); // beginning of "world"
    buf.move_backward_word();
    assert_eq!(buf.cursor(), 0); // beginning of "hello"
}

// -- kill commands --

#[test]
fn kill_to_end() {
    let mut buf = LineBuffer::from_str("hello world");
    buf.set_cursor(5).unwrap();
    let killed = buf.kill_to_end().unwrap();
    assert_eq!(killed, " world");
    assert_eq!(buf.as_str(), "hello");
}

#[test]
fn kill_to_start() {
    let mut buf = LineBuffer::from_str("hello world");
    buf.set_cursor(5).unwrap();
    let killed = buf.kill_to_start().unwrap();
    assert_eq!(killed, "hello");
    assert_eq!(buf.as_str(), " world");
    assert_eq!(buf.cursor(), 0);
}

#[test]
fn kill_word_backward() {
    let mut buf = LineBuffer::from_str("hello world");
    // cursor at end
    let killed = buf.kill_word_backward().unwrap();
    assert_eq!(killed, "world");
    assert_eq!(buf.as_str(), "hello ");
}

// -- transpose --

#[test]
fn transpose_chars_at_middle() {
    let mut buf = LineBuffer::from_str("ab");
    buf.set_cursor(1).unwrap();
    buf.transpose_chars().unwrap();
    assert_eq!(buf.as_str(), "ba");
}

#[test]
fn transpose_chars_at_end() {
    let mut buf = LineBuffer::from_str("abc");
    // cursor at end → transpose last two
    buf.transpose_chars().unwrap();
    assert_eq!(buf.as_str(), "acb");
}

// -- undo --

#[test]
fn undo_single_insert() {
    let mut buf = LineBuffer::new();
    buf.insert("hello").unwrap();
    assert_eq!(buf.as_str(), "hello");
    buf.undo().unwrap();
    assert_eq!(buf.as_str(), "");
    assert_eq!(buf.cursor(), 0);
}

#[test]
fn undo_delete() {
    let mut buf = LineBuffer::from_str("hello");
    let _ = buf.delete_range(2, 1).unwrap(); // delete 'l'
    assert_eq!(buf.as_str(), "helo");
    buf.undo().unwrap();
    assert_eq!(buf.as_str(), "hello");
}

#[test]
fn undo_stack_empty_returns_error() {
    let mut buf = LineBuffer::new();
    let err = buf.undo().unwrap_err();
    assert!(matches!(err, OxidreadError::UndoStackEmpty));
}

// -- undo groups --

#[test]
fn undo_group_reverts_multiple_edits() {
    let mut buf = LineBuffer::new();
    buf.begin_undo_group();
    buf.insert("he").unwrap();
    buf.insert("llo").unwrap();
    buf.end_undo_group().unwrap();

    assert_eq!(buf.as_str(), "hello");
    buf.undo().unwrap();
    assert_eq!(buf.as_str(), "");
}

// -- mark --

#[test]
fn set_and_exchange_mark() {
    let mut buf = LineBuffer::from_str("hello");
    buf.set_cursor(2).unwrap();
    buf.set_mark();
    buf.move_to_end();
    buf.exchange_point_and_mark().unwrap();
    assert_eq!(buf.cursor(), 2);
    assert_eq!(buf.mark(), Some(5));
}

// -- replace_line --

#[test]
fn replace_line_clears_undo() {
    let mut buf = LineBuffer::new();
    buf.insert("old").unwrap();
    buf.replace_line("new content", true);
    assert_eq!(buf.as_str(), "new content");
    let err = buf.undo().unwrap_err();
    assert!(matches!(err, OxidreadError::UndoStackEmpty));
}

// -- display width --

#[test]
fn display_width_ascii() {
    let buf = LineBuffer::from_str("hello");
    assert_eq!(buf.display_width(), 5);
}

#[test]
fn display_width_wide_chars() {
    // CJK characters are 2 columns wide each.
    let buf = LineBuffer::from_str("こんにちは");
    assert_eq!(buf.display_width(), 10);
}