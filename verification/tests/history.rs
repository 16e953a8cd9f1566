use oxidread::readline::history::{
    zainium_info, History, OXIDREAD_IDENTITY, ZAINIUM_HISTORY_FILENAME, ZAINIUM_HISTORY_MAX,
};
use std::path::PathBuf;

// -- zainium branding --

#[test]
fn zainium_identity_contains_author() {
    assert!(OXIDREAD_IDENTITY.contains("Ali Zain"));
    assert!(OXIDREAD_IDENTITY.contains("alizain.x404@gmail.com"));
    assert!(OXIDREAD_IDENTITY.contains("Zainium OS"));
    assert!(OXIDREAD_IDENTITY.contains("GPL-3.0"));
}

#[test]
fn zainium_info_returns_identity() {
    assert_eq!(zainium_info(), OXIDREAD_IDENTITY);
}

#[test]
fn zainium_default_constructor_sets_file_path() {
    let h = History::zainium_default(PathBuf::from("/home/ali-zain").join(ZAINIUM_HISTORY_FILENAME));
    assert!(h.file_path.is_some());
    assert_eq!(
        h.file_path.as_ref().unwrap().file_name().unwrap(),
        ZAINIUM_HISTORY_FILENAME
    );
    assert_eq!(h.max_entries(), ZAINIUM_HISTORY_MAX);
}

// -- push / dedup --

#[test]
fn push_adds_entries() {
    let mut h = History::new(100);
    h.push("ls");
    h.push("pwd");
    assert_eq!(h.len(), 2);
}

#[test]
fn push_ignores_empty_lines() {
    let mut h = History::new(100);
    h.push("");
    h.push("   \n");
    assert_eq!(h.len(), 0);
}

#[test]
fn push_dedup_skips_consecutive_duplicate() {
    let mut h = History::new(100);
    h.push("ls");
    h.push("ls");
    h.push("ls");
    assert_eq!(h.len(), 1);
}

#[test]
fn push_dedup_allows_non_consecutive_duplicate() {
    let mut h = History::new(100);
    h.push("ls");
    h.push("pwd");
    h.push("ls");
    assert_eq!(h.len(), 3);
}

#[test]
fn push_evicts_oldest_when_full() {
    let mut h = History::new(3);
    h.push("a");
    h.push("b");
    h.push("c");
    h.push("d");
    assert_eq!(h.len(), 3);
    assert_eq!(h.get(0).unwrap().line, "b");
}

// -- navigation --

#[test]
fn prev_returns_newest_first() {
    let mut h = History::new(100);
    h.push("first");
    h.push("second");
    h.push("third");

    let e = h.prev(Some("draft")).unwrap();
    assert_eq!(e.line, "third");
    let e = h.prev(None).unwrap();
    assert_eq!(e.line, "second");
    let e = h.prev(None).unwrap();
    assert_eq!(e.line, "first");
    // At oldest — should return None (bell).
    assert!(h.prev(None).is_none());
}

#[test]
fn next_returns_newer_entries() {
    let mut h = History::new(100);
    h.push("one");
    h.push("two");
    h.push("three");

    // Go back two.
    h.prev(Some("live"));
    h.prev(None);

    // Now go forward.
    let e = h.next().unwrap();
    assert_eq!(e.line, "three");

    // One more → past end, returns None, cursor resets to AtEnd.
    assert!(h.next().is_none());
    assert!(h.is_at_end());
}

#[test]
fn saved_draft_is_restored_after_navigation() {
    let mut h = History::new(100);
    h.push("cmd1");
    h.push("cmd2");

    h.prev(Some("my draft"));
    // Navigate back to end.
    h.next(); // cmd2 → goes back AtEnd
    // next() returned None → restore draft.
    let draft = h.take_saved_draft();
    assert_eq!(draft.as_deref(), Some("my draft"));
}

#[test]
fn reset_cursor_clears_navigation() {
    let mut h = History::new(100);
    h.push("x");
    h.prev(Some("draft"));
    h.reset_cursor();
    assert!(h.is_at_end());
    assert!(h.take_saved_draft().is_none());
}

// -- search --

#[test]
fn search_backward_finds_match() {
    let mut h = History::new(100);
    h.push("cargo build");
    h.push("cargo test");
    h.push("git status");

    let result = h.search_backward("cargo");
    assert!(result.is_some());
    let (_, entry) = result.unwrap();
    assert_eq!(entry.line, "cargo test");
}

#[test]
fn search_backward_returns_none_when_no_match() {
    let mut h = History::new(100);
    h.push("ls");
    h.push("pwd");
    assert!(h.search_backward("zzznomatch").is_none());
}

#[test]
fn search_prefix_backward_matches_prefix_only() {
    let mut h = History::new(100);
    h.push("cargo build");
    h.push("cargo test");
    h.push("cat README.md");

    let result = h.search_prefix_backward("cargo");
    assert!(result.is_some());
    let (_, entry) = result.unwrap();
    assert_eq!(entry.line, "cargo test"); // most recent match
}

// -- file persistence --

#[test]
fn save_and_load_roundtrip() {
    let mut h = History::new(100);
    h.push("echo hello");
    h.push("ls -la");
    h.push("cargo build --release");
    let content = h.file_text(100);

    let mut h2 = History::new(100);
    let count = h2.load_text(&content);
    assert_eq!(count, 3);
    assert_eq!(h2.get(0).unwrap().line, "echo hello");
    assert_eq!(h2.get(2).unwrap().line, "cargo build --release");
}

#[test]
fn save_respects_max_lines() {
    let mut h = History::new(100);
    for i in 0..10 {
        h.push(&format!("cmd {}", i));
    }
    let content = h.file_text(3);

    let mut h2 = History::new(100);
    h2.load_text(&content);
    assert_eq!(h2.len(), 3);
    // Should have saved the most recent 3.
    assert_eq!(h2.get(0).unwrap().line, "cmd 7");
    assert_eq!(h2.get(2).unwrap().line, "cmd 9");
}

#[test]
fn load_plain_text_format() {
    let content = "echo zainium\nuname -r\nzx install code\n";

    let mut h = History::new(100);
    let count = h.load_text(content);
    assert_eq!(count, 3);
    assert_eq!(h.get(1).unwrap().line, "uname -r");
}

#[test]
fn load_extended_bash_timestamp_format() {
    let content = "# 1700000000\necho hello\n# 1700000060\nls -la\n";

    let mut h = History::new(100);
    h.load_text(content);
    assert_eq!(h.get(0).unwrap().timestamp, Some(1_700_000_000));
    assert_eq!(h.get(1).unwrap().timestamp, Some(1_700_000_060));
    assert_eq!(h.get(0).unwrap().line, "echo hello");
}

#[test]
fn append_file_adds_to_existing() {
    let mut h = History::new(100);
    h.push("first");
    h.push("second");
    let mut content = h.file_text(100);

    h.push("third");
    content.push_str(&h.append_text(1).unwrap());

    let mut h2 = History::new(100);
    h2.load_text(&content);
    assert_eq!(h2.len(), 3);
    assert_eq!(h2.get(2).unwrap().line, "third");
}

#[test]
fn clear_resets_all_state() {
    let mut h = History::new(100);
    h.push("cmd");
    h.prev(Some("draft"));
    h.clear();
    assert!(h.is_empty());
    assert!(h.is_at_end());
}