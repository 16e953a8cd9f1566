use oxidread::readline::error::{BoundarySide, OxidreadError};
use oxidread::readline::line_buffer::{LineBuffer, UndoEntry, UndoStack};
use oxidread::readline::undo::continues_typing;

fn at_start(e: OxidreadError) -> bool {
    matches!(e, OxidreadError::CursorAtBoundary { side: BoundarySide::Start })
}

fn at_end(e: OxidreadError) -> bool {
    matches!(e, OxidreadError::CursorAtBoundary { side: BoundarySide::End })
}

#[test]
fn commands_blocked_at_the_boundaries() {
    let mut buf = LineBuffer::from_str("ab");
    assert!(at_end(buf.move_forward(1).unwrap_err()));
    assert!(at_end(buf.delete_forward().unwrap_err()));
    assert!(at_end(buf.kill_to_end().unwrap_err()));
    assert!(at_end(buf.kill_word_forward().unwrap_err()));
    buf.move_to_start();
    assert!(buf.at_start());
    assert!(at_start(buf.move_backward(1).unwrap_err()));
    assert!(at_start(buf.backspace().unwrap_err()));
    assert!(at_start(buf.kill_to_start().unwrap_err()));
    assert!(at_start(buf.kill_word_backward().unwrap_err()));
    assert!(at_start(buf.transpose_chars().unwrap_err()));
    assert!(at_start(buf.exchange_point_and_mark().unwrap_err()));
    assert_eq!(buf.as_str(), "ab");
}

#[test]
fn positions_out_of_range() {
    let mut buf = LineBuffer::from_str("ab");
    assert!(matches!(
        buf.set_cursor(3).unwrap_err(),
        OxidreadError::CursorOutOfBounds { pos: 3, len: 2 }
    ));
    assert!(matches!(
        buf.set_mark_at(9).unwrap_err(),
        OxidreadError::CursorOutOfBounds { pos: 9, len: 2 }
    ));
    assert!(matches!(
        buf.delete_range(3, 1).unwrap_err(),
        OxidreadError::GraphemeOutOfRange { index: 3, count: 2 }
    ));
    assert!(matches!(
        buf.end_undo_group().unwrap_err(),
        OxidreadError::UndoGroupMismatch
    ));
    assert_eq!(buf.cursor(), 2);
    assert_eq!(buf.mark(), None);
}

#[test]
fn moving_is_capped() {
    let mut buf = LineBuffer::from_str("abc");
    buf.move_backward(99).unwrap();
    assert_eq!(buf.cursor(), 0);
    buf.move_forward(usize::MAX).unwrap();
    assert_eq!(buf.cursor(), 3);
    buf.move_backward(2).unwrap();
    buf.move_forward(2).unwrap();
    assert_eq!(buf.cursor(), 3);
}

#[test]
fn cursor_stays_within_the_line() {
    // A combining mark joins the letter before it.
    let mut buf = LineBuffer::from_str("e");
    buf.insert("\u{301}").unwrap();
    assert_eq!(buf.as_str(), "e\u{301}");
    assert_eq!(buf.grapheme_count(), 1);
    assert_eq!(buf.cursor(), 1);
    assert!(buf.at_end());
    buf.insert("x").unwrap();
    assert_eq!(buf.as_str(), "e\u{301}x");
}

#[test]
fn deletion_moves_cursor_and_mark() {
    let mut buf = LineBuffer::from_str("abcdef");
    buf.set_mark_at(5).unwrap();
    assert_eq!(buf.delete_range(1, 2).unwrap(), "bc");
    assert_eq!(buf.as_str(), "adef");
    assert_eq!(buf.cursor(), 4);
    assert_eq!(buf.mark(), Some(3));
    buf.set_cursor(2).unwrap();
    assert_eq!(buf.delete_range(1, 99).unwrap(), "def");
    assert_eq!(buf.cursor(), 1);
    assert_eq!(buf.mark(), Some(1));
    assert_eq!(buf.delete_range(1, 5).unwrap(), "");
    buf.clear_mark();
    assert_eq!(buf.mark(), None);
}

#[test]
fn deleting_what_was_inserted() {
    let mut buf = LineBuffer::from_str("ad");
    buf.set_cursor(1).unwrap();
    buf.insert("bc").unwrap();
    assert_eq!(buf.delete_range(1, 2).unwrap(), "bc");
    assert_eq!((buf.as_str(), buf.cursor()), ("ad", 1));
}

#[test]
fn killing_words() {
    let mut buf = LineBuffer::from_str("one  two-x  three");
    buf.set_cursor(12).unwrap();
    assert_eq!(buf.kill_word_backward().unwrap(), "two-x  ");
    assert_eq!(buf.as_str(), "one  three");
    assert_eq!(buf.cursor(), 5);
    buf.set_cursor(3).unwrap();
    assert_eq!(buf.kill_word_forward().unwrap(), "  three");
    assert_eq!(buf.as_str(), "one");
}

#[test]
fn moving_by_words() {
    let mut buf = LineBuffer::from_str("ab-cd  ef_1 ");
    buf.move_to_start();
    buf.move_forward_word();
    assert_eq!(buf.cursor(), 2);
    buf.move_forward_word();
    assert_eq!(buf.cursor(), 5);
    buf.move_forward_word();
    assert_eq!(buf.cursor(), 11);
    buf.move_forward_word();
    assert_eq!(buf.cursor(), 12);
    buf.move_backward_word();
    assert_eq!(buf.cursor(), 7);
    buf.move_backward_word();
    assert_eq!(buf.cursor(), 3);
    buf.move_backward_word();
    buf.move_backward_word();
    assert_eq!(buf.cursor(), 0);
}

#[test]
fn widths() {
    let mut buf = LineBuffer::from_str("a日b");
    assert_eq!(buf.display_width(), 4);
    buf.set_cursor(2).unwrap();
    assert_eq!(buf.cursor_display_width(), 3);
    buf.move_to_start();
    assert_eq!(buf.cursor_display_width(), 0);
    let text: String = (' '..='~').collect();
    let mut buf = LineBuffer::from_str(&text);
    assert_eq!(buf.display_width(), 95);
    buf.set_cursor(40).unwrap();
    assert_eq!(buf.cursor_display_width(), 40);
}

#[test]
fn cursor_moves_on_by_the_clusters_of_the_text() {
    // The mark joins the letter before it, and the cursor moves on by one.
    let mut buf = LineBuffer::from_str("ab");
    buf.set_cursor(1).unwrap();
    buf.insert("\u{301}").unwrap();
    assert_eq!((buf.as_str(), buf.cursor()), ("a\u{301}b", 2));
}

#[test]
fn typing_is_undone_in_runs() {
    let mut buf = LineBuffer::new();
    for c in ["a", "b", "c", "d", "e", "f", "g", "h", "i", "j", "k", "l", "m", "n", "o", "p", "q", "r", "s", "t", "u", "v"] {
        buf.insert(c).unwrap();
    }
    // An entry takes twenty clusters; the rest starts another.
    buf.undo().unwrap();
    assert_eq!(buf.as_str(), "abcdefghijklmnopqrst");
    assert_eq!(buf.cursor(), 20);
    buf.undo().unwrap();
    assert_eq!(buf.as_str(), "");
    assert!(matches!(buf.undo().unwrap_err(), OxidreadError::UndoStackEmpty));
}

#[test]
fn undo_restores_deleted_text_behind_which_the_cursor_stands() {
    let mut buf = LineBuffer::from_str("hello world");
    buf.set_cursor(5).unwrap();
    buf.kill_to_start().unwrap();
    buf.undo().unwrap();
    assert_eq!(buf.as_str(), "hello world");
    assert_eq!(buf.cursor(), 5);
}

#[test]
fn undo_of_a_transposition() {
    let mut buf = LineBuffer::from_str("abcd");
    buf.set_cursor(2).unwrap();
    buf.transpose_chars().unwrap();
    assert_eq!(buf.as_str(), "acbd");
    assert_eq!(buf.cursor(), 3);
    buf.undo().unwrap();
    assert_eq!(buf.as_str(), "abcd");
}

#[test]
fn undo_of_nested_groups() {
    let mut buf = LineBuffer::from_str("xyz");
    buf.begin_undo_group();
    buf.insert("1").unwrap();
    buf.begin_undo_group();
    buf.set_cursor(0).unwrap();
    buf.delete_forward().unwrap();
    buf.end_undo_group().unwrap();
    buf.insert("2").unwrap();
    buf.end_undo_group().unwrap();
    assert_eq!(buf.as_str(), "2yz1");
    buf.undo().unwrap();
    assert_eq!(buf.as_str(), "xyz");
    assert!(matches!(buf.undo().unwrap_err(), OxidreadError::UndoStackEmpty));
}

#[test]
fn exchanging_twice() {
    let mut buf = LineBuffer::from_str("hello");
    buf.set_mark_at(1).unwrap();
    buf.exchange_point_and_mark().unwrap();
    assert_eq!((buf.cursor(), buf.mark()), (1, Some(5)));
    buf.exchange_point_and_mark().unwrap();
    assert_eq!((buf.cursor(), buf.mark()), (5, Some(1)));
}

#[test]
fn stale_mark_leads_to_the_end() {
    let mut buf = LineBuffer::new();
    buf.insert("hello").unwrap();
    buf.set_mark();
    buf.undo().unwrap();
    assert_eq!(buf.mark(), Some(5));
    buf.exchange_point_and_mark().unwrap();
    assert_eq!(buf.cursor(), 0);
}

#[test]
fn replacing_and_clearing() {
    let mut buf = LineBuffer::new();
    buf.insert("old").unwrap();
    buf.set_mark();
    buf.replace_line("newer", false);
    assert_eq!((buf.cursor(), buf.mark()), (5, None));
    assert!(buf.undo().is_ok());
    buf.clear();
    assert!(buf.is_empty());
    assert_eq!(buf.cursor(), 0);
    assert!(buf.undo().is_err());
    assert!(LineBuffer::default().is_empty());
}

#[test]
fn clone_is_independent() {
    let mut buf = LineBuffer::from_str("ab");
    buf.insert("c").unwrap();
    let mut copy = buf.clone();
    copy.undo().unwrap();
    assert_eq!(copy.as_str(), "ab");
    assert_eq!(buf.as_str(), "abc");
}

#[test]
fn undo_sets_come_newest_first() {
    let first = UndoEntry::Insert { grapheme_pos: 0, text: "ab".to_string() };
    let second = UndoEntry::Delete { grapheme_pos: 1, text: "b".to_string() };
    let mut stack = UndoStack::new();
    assert!(stack.is_empty());
    stack.begin_group();
    stack.push(first.clone());
    stack.push(second.clone());
    stack.end_group().unwrap();
    assert_eq!(stack.clone().pop_undo_set().unwrap(), vec![second.clone(), first]);
    stack.push(second.clone());
    assert_eq!(stack.pop_undo_set().unwrap(), vec![second]);
    assert!(!stack.is_empty());
    stack.clear();
    assert!(matches!(stack.pop_undo_set().unwrap_err(), OxidreadError::UndoStackEmpty));
    assert!(matches!(stack.end_group().unwrap_err(), OxidreadError::UndoGroupMismatch));
}

#[test]
fn a_group_is_popped_whole_and_in_reverse() {
    let he = UndoEntry::Insert { grapheme_pos: 0, text: "he".to_string() };
    let llo = UndoEntry::Insert { grapheme_pos: 2, text: "llo".to_string() };
    let mut stack = UndoStack::new();
    stack.begin_group();
    stack.push(he.clone());
    stack.push(llo.clone());
    stack.end_group().unwrap();
    assert_eq!(stack.pop_undo_set().unwrap(), vec![llo, he]);
    assert!(matches!(stack.pop_undo_set().unwrap_err(), OxidreadError::UndoStackEmpty));
}

/// One edit out of each command that changes the text.
fn edit(buf: &mut LineBuffer, command: usize) {
    let _ = match command {
        0 => buf.insert("x y").map(|_| String::new()),
        1 => buf.delete_range(1, 2),
        2 => buf.backspace(),
        3 => buf.delete_forward(),
        4 => buf.kill_to_end(),
        5 => buf.kill_to_start(),
        6 => buf.kill_word_backward(),
        7 => buf.kill_word_forward(),
        _ => buf.transpose_chars().map(|_| String::new()),
    };
}

#[test]
fn printable_ascii_comes_back_from_any_edit() {
    let text = "echo 'a b' | ~!";
    for at in 0..=text.len() {
        for command in 0..9 {
            let mut buf = LineBuffer::from_str(text);
            buf.set_cursor(at).unwrap();
            edit(&mut buf, command);
            if buf.as_str() != text {
                buf.undo().unwrap();
                assert_eq!(buf.as_str(), text);
            }
            assert!(matches!(buf.undo().unwrap_err(), OxidreadError::UndoStackEmpty));
        }
    }
}

#[test]
fn printable_ascii_comes_back_from_any_group() {
    let text = "echo 'a b' | ~!";
    for first in 0..9 {
        for second in 0..9 {
            let mut buf = LineBuffer::from_str(text);
            buf.set_cursor(7).unwrap();
            buf.begin_undo_group();
            edit(&mut buf, first);
            edit(&mut buf, second);
            edit(&mut buf, first);
            buf.end_undo_group().unwrap();
            buf.undo().unwrap();
            assert_eq!(buf.as_str(), text);
            assert!(matches!(buf.undo().unwrap_err(), OxidreadError::UndoStackEmpty));
        }
    }
}

#[test]
fn cursor_after_deletions() {
    // What is left of the gap keeps its clusters, also where the two sides join.
    let mut buf = LineBuffer::from_str("ae x\u{301}");
    buf.set_cursor(2).unwrap();
    assert_eq!(buf.kill_to_end().unwrap(), " x\u{301}");
    assert_eq!(buf.cursor(), 2);
    assert!(buf.at_end());
    let mut buf = LineBuffer::from_str("🇩🇪🇫🇷");
    buf.set_cursor(1).unwrap();
    assert_eq!(buf.backspace().unwrap(), "🇩🇪");
    assert_eq!((buf.as_str(), buf.cursor()), ("🇫🇷", 0));
}

#[test]
fn typed_clusters_join_outside_groups_only() {
    let typed = |pos: usize, text: &str| UndoEntry::Insert {
        grapheme_pos: pos,
        text: text.to_string(),
    };
    let mut stack = UndoStack::default();
    stack.push(typed(0, "ab"));
    stack.push(typed(2, "c"));
    assert_eq!(stack.pop_undo_set().unwrap(), vec![typed(0, "abc")]);
    stack.push(typed(0, "a"));
    stack.push(typed(1, "bc"));
    assert_eq!(stack.pop_undo_set().unwrap(), vec![typed(1, "bc")]);
    stack.begin_group();
    stack.push(typed(1, "b"));
    stack.push(typed(2, "c"));
    stack.end_group().unwrap();
    assert_eq!(stack.pop_undo_set().unwrap(), vec![typed(2, "c"), typed(1, "b")]);
    assert!(continues_typing(3, 2, 5, 1));
    assert!(!continues_typing(3, 2, 6, 1));
    assert!(!continues_typing(3, 2, 5, 2));
    assert!(!continues_typing(0, 20, 20, 1));
}
