use oxidread::readline::error::OxidreadError;
use oxidread::readline::history::{
    holds_commands, History, HistoryEntry, NavigationCursor, ZAINIUM_HISTFILE_MAX,
};

fn lines(h: &History) -> Vec<String> {
    h.iter().map(|e| e.line.clone()).collect()
}

#[test]
fn commands_are_trimmed() {
    let mut h = History::new(10);
    h.push("  ls -la \t\n");
    assert_eq!(h.get(0).unwrap().line, "ls -la");
    assert_eq!(h.get(0).unwrap().timestamp, None);
    assert!(h.get(1).is_none());
}

#[test]
fn pushing_twice_is_pushing_once() {
    let mut h = History::new(10);
    h.push("ls");
    h.push(" ls ");
    assert_eq!(h.len(), 1);
    h.dedup = false;
    h.push("ls");
    assert_eq!(h.len(), 2);
}

#[test]
fn size_is_bounded() {
    let mut h = History::new(2);
    for i in 0..100 {
        h.push(&format!("cmd {}", i));
        assert!(h.len() <= 2);
    }
    assert_eq!(lines(&h), vec!["cmd 98", "cmd 99"]);
    assert_eq!(h.as_slice().len(), 2);
}

#[test]
fn blank_lines_need_no_room() {
    let mut h = History::new(0);
    h.push("  ");
    assert_eq!(h.load_text("# 5\n\n  \n"), 0);
    assert!(h.is_empty());
}

#[test]
fn removing() {
    let mut h = History::new(10);
    h.push("a");
    h.push("b");
    assert!(matches!(
        h.remove(2).unwrap_err(),
        OxidreadError::HistoryOutOfRange { index: 2, len: 2 }
    ));
    assert_eq!(h.remove(0).unwrap(), HistoryEntry::new("a".to_string()));
    assert_eq!(lines(&h), vec!["b"]);
}

#[test]
fn walking_back_and_forth_restores_the_draft() {
    let mut h = History::new(10);
    for c in ["a", "b", "c"] {
        h.push(c);
    }
    assert_eq!(h.prev(Some("draft")).unwrap().line, "c");
    assert_eq!(h.prev(Some("other")).unwrap().line, "b");
    assert_eq!(h.prev(None).unwrap().line, "a");
    assert!(h.prev(None).is_none());
    assert_eq!(h.next().unwrap().line, "b");
    assert_eq!(h.next().unwrap().line, "c");
    assert!(h.next().is_none());
    assert!(h.is_at_end());
    assert_eq!(h.take_saved_draft().as_deref(), Some("draft"));
    assert!(h.take_saved_draft().is_none());
    assert!(h.next().is_none());
}

#[test]
fn walking_an_empty_history() {
    let mut h = History::new(10);
    assert!(h.prev(Some("draft")).is_none());
    assert!(h.is_at_end());
    assert!(h.take_saved_draft().is_none());
    assert_eq!(NavigationCursor::default(), NavigationCursor::AtEnd);
}

#[test]
fn searching_from_the_current_command() {
    let mut h = History::new(10);
    for c in ["cargo build", "git status", "cargo test", "ls"] {
        h.push(c);
    }
    assert!(h.search_forward("cargo").is_none());
    h.prev(None);
    h.prev(None);
    let (i, e) = h.search_backward("cargo").unwrap();
    assert_eq!((i, e.line.as_str()), (0, "cargo build"));
    h.prev(None);
    let (i, e) = h.search_forward("s").unwrap();
    assert_eq!((i, e.line.as_str()), (2, "cargo test"));
    assert!(h.search_forward("status").is_none());
    assert!(h.search_prefix_backward("git").is_none());
    h.reset_cursor();
    assert_eq!(h.search_prefix_backward("git").unwrap().0, 1);
    assert!(h.search_prefix_backward("status").is_none());
    assert_eq!(h.search_backward("").unwrap().0, 3);
}

#[test]
fn file_format() {
    let mut h = History::new(10);
    assert_eq!(h.load_text("# 17\nls  \n\n# x\r\n# 18\n\ncd\ncd\n#  19 \npwd"), 4);
    assert_eq!(
        h.as_slice(),
        vec![
            HistoryEntry::with_timestamp("ls", 17),
            HistoryEntry::new("# x"),
            HistoryEntry::new("cd"),
            HistoryEntry::with_timestamp("pwd", 19),
        ]
    );
    assert_eq!(h.file_text(100), "# 17\nls\n# x\ncd\n# 19\npwd\n");
    assert_eq!(h.file_text(1), "# 19\npwd\n");
    assert_eq!(h.file_text(0), "");
    assert_eq!(h.append_text(2).unwrap(), "cd\n# 19\npwd\n");
    assert!(h.append_text(0).is_none());
    assert!(History::new(10).append_text(3).is_none());
}

#[test]
fn saving_needs_a_configured_file() {
    let mut h = History::new(10);
    h.push("a");
    h.push("b");
    assert!(h.text_to_save().is_none());
    h.file_path = Some(std::path::PathBuf::from("/tmp/history"));
    assert_eq!(h.text_to_save().unwrap(), "a\nb\n");
    h.file_max = 1;
    assert_eq!(h.text_to_save().unwrap(), "b\n");
}

#[test]
fn settings() {
    let mut h = History::new(10);
    h.push("a");
    h.set_dedup(false);
    h.push("a");
    assert!(!h.dedup);
    assert_eq!(h.len(), 2);
    h.set_file_path(Some(std::path::PathBuf::from("/tmp/history")));
    h.set_file_max(1);
    assert_eq!(h.text_to_save().unwrap(), "a\n");
    h.set_file_path(None);
    assert!(h.text_to_save().is_none());
}

#[test]
fn leading_space_survives_loading() {
    let mut h = History::new(10);
    h.load_text("  indented\n");
    assert_eq!(h.get(0).unwrap().line, "  indented");
}

#[test]
fn loading_keeps_the_newest() {
    let mut h = History::new(2);
    h.push("x");
    assert_eq!(h.load_text("a\nb\nc\n"), 3);
    assert_eq!(lines(&h), vec!["b", "c"]);
}

#[test]
fn saved_history_is_read_back() {
    let mut h = History::new(10);
    h.load_text("# 1700000000\necho hello\nls -la\n# 5\nls\n");
    let mut back = History::new(10);
    assert_eq!(back.load_text(&h.file_text(10)), 3);
    assert_eq!(back.as_slice(), h.as_slice());
}

#[test]
fn saving_and_appending_is_saving_all() {
    let mut h = History::new(10);
    h.push("a");
    h.push("b");
    let mut content = h.file_text(10);
    h.push("c");
    content.push_str(&h.append_text(1).unwrap());
    assert_eq!(content, h.file_text(10));
}

#[test]
fn commands_of_several_lines_are_not_read_back_whole() {
    let mut h = History::new(10);
    h.push("one\ntwo");
    let mut back = History::new(10);
    assert_eq!(back.load_text(&h.file_text(10)), 2);
}

#[test]
fn text_with_and_without_commands() {
    assert!(!holds_commands(""));
    assert!(!holds_commands("# 5\n \n"));
    assert!(holds_commands("# five\n"));
}

#[test]
fn clone_keeps_everything() {
    let mut h = History::new(3);
    h.push("a");
    h.prev(Some("draft"));
    let mut copy = h.clone();
    assert_eq!(copy.as_slice(), h.as_slice());
    assert_eq!(copy.max_entries(), 3);
    assert_eq!(copy.file_max, ZAINIUM_HISTFILE_MAX);
    assert!(!copy.is_at_end());
    assert_eq!(copy.take_saved_draft().as_deref(), Some("draft"));
    assert_eq!(copy.file_path, None);
}
