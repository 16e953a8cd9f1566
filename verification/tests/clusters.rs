use oxidread::readline::cluster::{
    blank_flags_of, byte_offset, count_graphemes, insert_text, is_word_char, join_clusters,
    nth_offset, replace_clusters, skip_run, skip_run_back, splice, word_flags_of,
};
use oxidread::readline::line_buffer::LineBuffer;

const FAMILY: &str = "👨\u{200d}👩\u{200d}👧";

#[test]
fn clusters_are_counted_as_extended() {
    assert_eq!(count_graphemes(""), 0);
    assert_eq!(count_graphemes("abc"), 3);
    assert_eq!(count_graphemes("e\u{301}"), 1);
    assert_eq!(count_graphemes(FAMILY), 1);
    assert_eq!(count_graphemes("\r\n"), 1);
    assert_eq!(count_graphemes("🇩🇪🇫🇷"), 2);
}

#[test]
fn printable_ascii_has_one_cluster_per_character() {
    let text: String = (' '..='~').collect();
    assert_eq!(count_graphemes(&text), 95);
    for a in ' '..='~' {
        for b in ' '..='~' {
            assert_eq!(count_graphemes(&format!("{}{}", a, b)), 2);
        }
    }
}

#[test]
fn parts_at_the_start_keep_their_clusters() {
    let text = format!("ae\u{301}{}🇩🇪🇫🇷🇩\r\nक्षि\u{600}x{}", FAMILY, FAMILY);
    let buf = LineBuffer::from_str(&text);
    for k in 0..=buf.grapheme_count() {
        let head = LineBuffer::from_str(&buf.grapheme_slice(0, k));
        assert_eq!(head.grapheme_count(), k);
        for i in 0..k {
            assert_eq!(head.grapheme_slice(i, i + 1), buf.grapheme_slice(i, i + 1));
        }
    }
    let mut head = String::new();
    for c in text.chars() {
        head.push(c);
        assert!(count_graphemes(&head) <= buf.grapheme_count());
    }
}

#[test]
fn offsets_are_in_bytes() {
    let s = "aé日e\u{301}x";
    assert_eq!(byte_offset(s, 0), 0);
    assert_eq!(byte_offset(s, 1), 1);
    assert_eq!(byte_offset(s, 2), 3);
    assert_eq!(byte_offset(s, 3), 6);
    assert_eq!(byte_offset(s, 4), 9);
    assert_eq!(byte_offset(s, 5), 10);
    assert_eq!(byte_offset(s, 99), 10);
}

#[test]
fn nth_offset_falls_back_to_the_end() {
    let indices = vec![(0, "a"), (1, "é")];
    assert_eq!(nth_offset(&indices, 1, 3), 1);
    assert_eq!(nth_offset(&indices, 2, 3), 3);
}

#[test]
fn text_is_spliced_at_bytes_and_clusters() {
    assert_eq!(splice("aé日", 1, 3, "xy"), "axy日");
    assert_eq!(splice("", 0, 0, "x"), "x");
    assert_eq!(insert_text("aé日", 2, "-"), "aé-日");
    assert_eq!(insert_text("aé日", 9, "-"), "aé日-");
    assert_eq!(replace_clusters("ae\u{301}日", 1, 2, "E"), "aE日");
}

#[test]
fn clusters_are_joined() {
    let parts = vec!["a", "b", "c"];
    assert_eq!(join_clusters(&parts, 1, 3), "bc");
    assert_eq!(join_clusters(&parts, 2, 1), "");
    assert_eq!(join_clusters(&parts, 1, 99), "bc");
    assert_eq!(join_clusters(&parts, 99, 100), "");
}

#[test]
fn word_characters() {
    assert!(is_word_char("a"));
    assert!(is_word_char("_"));
    assert!(is_word_char("9"));
    assert!(is_word_char("é"));
    assert!(is_word_char("日"));
    assert!(is_word_char("e\u{301}"));
    assert!(!is_word_char("-"));
    assert!(!is_word_char(" "));
    assert!(!is_word_char(""));
    assert!(!is_word_char("👍"));
}

#[test]
fn flags_and_runs() {
    let parts = vec!["a", "b", " ", "-", "c"];
    let words = word_flags_of(&parts);
    assert_eq!(words, vec![true, true, false, false, true]);
    assert_eq!(blank_flags_of(&parts), vec![false, false, true, false, false]);
    assert_eq!(skip_run(&words, 0, true), 2);
    assert_eq!(skip_run(&words, 2, true), 2);
    assert_eq!(skip_run(&words, 4, true), 5);
    assert_eq!(skip_run_back(&words, 4, false), 2);
    assert_eq!(skip_run_back(&words, 2, true), 0);
}

#[test]
fn buffer_offsets_and_slices() {
    let buf = LineBuffer::from_str("aé日");
    assert_eq!(buf.grapheme_to_byte_offset(3).unwrap(), 6);
    assert!(buf.grapheme_to_byte_offset(4).is_err());
    assert_eq!(buf.grapheme_slice(1, 3), "é日");
    assert_eq!(buf.grapheme_slice(2, 1), "");
    assert_eq!(buf.len_bytes(), 6);
}
