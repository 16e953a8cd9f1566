use oxidread::readline::text::{
    begins_with, chars_of, end_trimmed, has_text, is_all_white_space, is_white_space, parse_number,
    push_decimal, same_text, split_lines, string_of, text_of_last_line, trimmed,
};

#[test]
fn white_space_agrees_with_std() {
    for code in 0..=0x10ffffu32 {
        if let Some(c) = char::from_u32(code) {
            assert_eq!(is_white_space(c), c.is_whitespace(), "U+{:04X}", code);
        }
    }
}

#[test]
fn trimming_agrees_with_std() {
    for s in [
        "", " ", "a", " a", "a ", " a b ", "\t\r\n x \u{3000}", "\u{a0}é\u{2028}", "\u{200b}",
    ] {
        assert_eq!(trimmed(s), s.trim());
        assert_eq!(end_trimmed(s), s.trim_end());
        assert_eq!(is_all_white_space(s), s.chars().all(char::is_whitespace));
    }
}

#[test]
fn lines_agree_with_std() {
    for s in [
        "", "\n", "a", "a\n", "a\nb", "a\r\nb\r\n", "\r", "a\r", "\r\n", "\n\n", "a\n\nb", "a\rb\n",
    ] {
        let expected: Vec<String> = s.lines().map(str::to_string).collect();
        assert_eq!(split_lines(s), expected, "{:?}", s);
    }
}

#[test]
fn last_line_is_what_follows_the_last_line_feed() {
    assert_eq!(text_of_last_line(""), "");
    assert_eq!(text_of_last_line("abc"), "abc");
    assert_eq!(text_of_last_line("a\nbc"), "bc");
    assert_eq!(text_of_last_line("a\n"), "");
}

#[test]
fn search_agrees_with_std() {
    for (whole, part) in [
        ("hello", "ell"), ("hello", ""), ("", ""), ("", "a"), ("aab", "ab"), ("aab", "ba"),
        ("日本語", "本"), ("hello", "hello!"), ("hello", "he"),
    ] {
        assert_eq!(has_text(whole, part), whole.contains(part));
        assert_eq!(begins_with(whole, part), whole.starts_with(part));
        assert_eq!(same_text(whole, part), whole == part);
    }
}

#[test]
fn numbers_agree_with_std() {
    for s in [
        "", "0", "7", "+7", "-7", "+", "++7", "007", "12a", "18446744073709551615",
        "18446744073709551616", "99999999999999999999", "１", " 7",
    ] {
        assert_eq!(parse_number(s), s.parse::<u64>().ok(), "{:?}", s);
    }
}

#[test]
fn number_round_trip() {
    for n in [0, 9, 10, 1_700_000_000, u64::MAX] {
        let mut s = String::new();
        push_decimal(&mut s, n);
        assert_eq!(s, n.to_string());
        assert_eq!(parse_number(&s), Some(n));
    }
}

#[test]
fn characters_and_back() {
    let chars = chars_of("aé日");
    assert_eq!(chars, vec!['a', 'é', '日']);
    assert_eq!(string_of(&chars, 1, 3), "é日");
    assert_eq!(string_of(&chars, 2, 2), "");
}
