use oxidread::readline::prompt::{
    last_line_display_width, strip_ansi_and_rl_markers, total_width, visible_display_width, Color,
    Prompt, PromptSegment, PromptState, Style,
};

#[test]
fn colour_codes() {
    let named = [
        (Color::black(), "30", "40"),
        (Color::red(), "31", "41"),
        (Color::green(), "32", "42"),
        (Color::yellow(), "33", "43"),
        (Color::blue(), "34", "44"),
        (Color::magenta(), "35", "45"),
        (Color::cyan(), "36", "46"),
        (Color::white(), "37", "47"),
        (Color::bright_black(), "90", "100"),
        (Color::bright_red(), "91", "101"),
        (Color::bright_green(), "92", "102"),
        (Color::bright_yellow(), "93", "103"),
        (Color::bright_blue(), "94", "104"),
        (Color::bright_magenta(), "95", "105"),
        (Color::bright_cyan(), "96", "106"),
        (Color::bright_white(), "97", "107"),
        (Color::Palette(7), "38;5;7", "48;5;7"),
        (Color::Rgb(1, 20, 255), "38;2;1;20;255", "48;2;1;20;255"),
        (Color::Default, "39", "49"),
    ];
    for (color, fg, bg) in named {
        assert_eq!(color.fg_code(), fg);
        assert_eq!(color.bg_code(), bg);
    }
}

#[test]
fn all_attributes() {
    let style = Style {
        fg: Some(Color::red()),
        bg: Some(Color::Palette(9)),
        bold: true,
        dim: true,
        italic: true,
        underline: true,
        blink: true,
        reverse: true,
    };
    assert_eq!(style.ansi_on(), "\x1b[1;2;3;4;5;7;31;48;5;9m");
    assert!(!style.is_plain());
    assert!(Style::default().is_plain());
    assert_eq!(style.clone(), style);
}

#[test]
fn backgrounds_without_a_code() {
    let style = Style { bg: Some(Color::Ansi(246)), ..Style::plain() };
    assert!(!style.can_render());
    let mut prompt = Prompt::plain("a");
    assert!(prompt.can_render());
    prompt.push(PromptSegment::styled("b", style));
    assert!(!prompt.can_render());
}

#[test]
fn segments_render() {
    let seg = PromptSegment::styled("x", Style::bold());
    assert_eq!(seg.render(), "\x1b[1mx\x1b[0m");
    assert_eq!(seg.render_rl_escaped(), "\x01\x1b[1m\x02x\x01\x1b[0m\x02");
    assert_eq!(PromptSegment::styled("x", Style::plain()).style, None);
    assert_eq!(seg.clone(), seg);
}

#[test]
fn rendering_shows_the_text() {
    let p = Prompt::builder()
        .bold_fg("user@host", Color::green())
        .plain(":~/src $ ")
        .styled("日本", Style { bg: Some(Color::Rgb(1, 2, 3)), ..Style::plain() })
        .plain("")
        .bold_text("!")
        .build();
    assert_eq!(p.segment_count(), 4);
    assert_eq!(p.visible_text(), "user@host:~/src $ 日本!");
    assert_eq!(strip_ansi_and_rl_markers(&p.render()), p.visible_text());
    assert_eq!(strip_ansi_and_rl_markers(&p.render_rl_escaped()), p.visible_text());
    assert_eq!(Prompt::from_raw(&p.render()).visible_text(), p.visible_text());
    assert_eq!(p.display_width(), 23);
}

#[test]
fn documented_builder_text() {
    let p = Prompt::builder()
        .bold_fg("myapp", Color::green())
        .plain(" › ")
        .fg_text("~/src", Color::blue())
        .plain(" $ ")
        .build();
    assert_eq!(p.visible_text(), "myapp › ~/src $ ");
    assert_eq!(p.to_string(), p.render());
}

#[test]
fn stripping() {
    for (raw, shown) in [
        ("hi\x1b", "hi"),
        ("a\x1bMb", "ab"),
        ("a\x1b日b", "ab"),
        ("a\x1b\x01b\x02", "ab\x02"),
        ("a\x01b", "a"),
        ("a\x02b", "a\x02b"),
        ("\x1b[", ""),
        ("\x1b[12", ""),
        ("\x1b[12é", "é"),
        ("\x1b[1 qx", "x"),
        ("\x1b[\x1b[mx", "x"),
        ("\x01\x1b\x02x", "x"),
        ("\x1b[~x", "x"),
        ("\x1b[\x7fx", "\x7fx"),
    ] {
        assert_eq!(strip_ansi_and_rl_markers(raw), shown, "{:?}", raw);
        assert_eq!(strip_ansi_and_rl_markers(shown), shown);
    }
}

#[test]
fn last_lines() {
    assert_eq!(last_line_display_width("ab\ncde"), 3);
    assert_eq!(last_line_display_width("ab\n"), 0);
    assert_eq!(last_line_display_width("日本"), visible_display_width("日本"));
    assert_eq!(last_line_display_width("\x01\n\x02ab"), 2);
    assert_eq!(Prompt::plain("ab\ncde").last_line_width(), 3);
    assert_eq!(Prompt::new().last_line_width(), 0);
}

#[test]
fn line_counts() {
    assert_eq!(Prompt::plain("a\nb").line_count(), 2);
    assert_eq!(Prompt::plain("a\nb\n").line_count(), 2);
    assert_eq!(Prompt::plain("\n").line_count(), 1);
}

#[test]
fn widths_of_segments_need_not_add_up() {
    // A variation selector widens the symbol before it only within one text.
    let mut p = Prompt::new();
    p.push(PromptSegment::plain("☁"));
    p.push(PromptSegment::plain("\u{fe0f}"));
    assert_eq!(p.display_width(), 1);
    assert_eq!(p.last_line_width(), 2);
}

#[test]
fn invisible_bytes() {
    let p = Prompt::builder().bold_fg("hi", Color::green()).build();
    assert_eq!(p.invisible_byte_count(), 11);
    assert_eq!(Prompt::plain("日本語").invisible_byte_count(), 0);
    let p = Prompt::builder().bold_text("日").plain("\u{301}").build();
    assert_eq!(p.invisible_byte_count(), 8);
    assert_eq!(Prompt::new().invisible_byte_count(), 0);
}

#[test]
fn widths_are_added() {
    assert_eq!(total_width(&vec![1, 2, 4]), 7);
    assert_eq!(total_width(&vec![]), 0);
}

#[test]
fn expanding_parts_the_text() {
    let (prefix, last) = Prompt::expand("a\n\x1b[1mb\x1b[0m");
    assert_eq!(prefix.as_deref(), Some("a\n"));
    assert_eq!(last.visible_text(), "b");
    let (prefix, last) = Prompt::expand("a\n");
    assert_eq!(prefix.as_deref(), Some("a\n"));
    assert!(last.is_empty());
    let (prefix, last) = Prompt::expand("");
    assert!(prefix.is_none());
    assert!(last.is_empty());
}

#[test]
fn search_prompts() {
    assert_eq!(Prompt::for_isearch("x", false).visible_text(), "(reverse-i-search)'x': ");
    assert_eq!(Prompt::for_isearch("", true).visible_text(), "(failed reverse-i-search)'': ");
    assert_eq!(Prompt::for_isearch("", true).segment_count(), 2);
    assert_eq!(Prompt::for_forward_search("x", false).visible_text(), "(i-search)'x': ");
    assert_eq!(Prompt::for_forward_search("x", true).visible_text(), "(failed i-search)'x': ");
    assert_eq!(
        Prompt::for_forward_search("x", false).render(),
        "\x1b[36m(i-search)'\x1b[0mx': "
    );
}

#[test]
fn saving_hands_the_prompt_back() {
    let mut state = PromptState::default();
    let shown = state.save(Prompt::plain("$ "));
    assert_eq!(shown.visible_text(), "$ ");
    assert!(state.clone().is_saved());
    assert_eq!(state.restore().unwrap().visible_text(), "$ ");
    assert!(state.restore().is_none());
}

#[test]
fn owned_text() {
    assert_eq!(PromptSegment::plain("a b".to_string()).text, "a b");
    assert_eq!(PromptSegment::styled(String::from("x"), Style::bold()).text, "x");
    assert_eq!(Prompt::message("done".to_string()).visible_text(), "done");
    let p = Prompt::builder().fg_text("a".to_string(), Color::red()).plain("b".to_string()).build();
    assert_eq!(p.visible_text(), "ab");
}

#[test]
fn printable_ascii_takes_one_column_per_character() {
    let text: String = (' '..='~').collect();
    assert_eq!(visible_display_width(&text), 95);
    assert_eq!(last_line_display_width(&text), 95);
    assert_eq!(PromptSegment::plain(text.clone()).display_width(), 95);
    let p = Prompt::builder().plain(text.clone()).bold_text(text).build();
    assert_eq!(p.display_width(), 190);
    assert_eq!(p.last_line_width(), 190);
}
