use oxidread::readline::prompt::{
    last_line_display_width, strip_ansi_and_rl_markers, visible_display_width, Color, Prompt,
    PromptBuilder, PromptSegment, PromptState, Style,
};

// -- Color --
#[test]
fn color_ansi_fg() {
    assert_eq!(Color::red().fg_code(),  "31");
}

#[test]
fn color_ansi_bg() {
    assert_eq!(Color::red().bg_code(),  "41");
}

#[test]
fn color_palette_fg() {
    assert_eq!(Color::Palette(200).fg_code(), "38;5;200");
}

#[test]
fn color_rgb_fg() {
    assert_eq!(Color::Rgb(255,128,0).fg_code(), "38;2;255;128;0");
}

#[test]
fn color_default_fg() {
    assert_eq!(Color::Default.fg_code(), "39");
}

#[test]
fn color_bright_blue_fg() {
    assert_eq!(Color::bright_blue().fg_code(), "94");
}

// -- Style --
#[test]
fn style_plain_empty() {
    let s = Style::plain();
    assert_eq!(s.ansi_on(), "");
    assert_eq!(s.ansi_off(), "");
}

#[test]
fn style_bold() {
    assert_eq!(Style::bold().ansi_on(), "\x1b[1m");
}

#[test]
fn style_fg_green() {
    assert_eq!(Style::fg(Color::green()).ansi_on(), "\x1b[32m");
}

#[test]
fn style_bold_fg_red() {
    assert_eq!(Style::bold_fg(Color::red()).ansi_on(), "\x1b[1;31m");
}

#[test]
fn style_off_plain() {
    assert_eq!(Style::plain().ansi_off(), "");
}

#[test]
fn style_off_styled() {
    assert_eq!(Style::bold().ansi_off(), "\x1b[0m");
}

#[test]
fn style_multi_attr() {
    let s = Style { bold: true, italic: true, fg: Some(Color::cyan()), ..Default::default() };
    let on = s.ansi_on();
    assert!(on.contains("1"));
    assert!(on.contains("3"));
    assert!(on.contains("36"));
}

#[test]
fn style_underline() {
    let s = Style { underline: true, ..Default::default() };
    assert!(s.ansi_on().contains("4"));
}

#[test]
fn style_bg_color() {
    let s = Style { bg: Some(Color::blue()), ..Default::default() };
    assert!(s.ansi_on().contains("44"));
}

// -- PromptSegment --
#[test]
fn seg_plain_render() {
    assert_eq!(PromptSegment::plain("$ ").render(), "$ ");
}

#[test]
fn seg_plain_width() {
    assert_eq!(PromptSegment::plain("$ ").display_width(), 2);
}

#[test]
fn seg_styled_wraps() {
    let seg = PromptSegment::styled("ok", Style::bold_fg(Color::green()));
    let r = seg.render();
    assert!(r.starts_with("\x1b["));
    assert!(r.contains("ok"));
    assert!(r.ends_with("\x1b[0m"));
}

#[test]
fn seg_width_styled() {
    assert_eq!(PromptSegment::styled("hello", Style::bold()).display_width(), 5);
}

#[test]
fn seg_wide_chars() {
    assert_eq!(PromptSegment::plain("こん").display_width(), 4);
}

#[test]
fn seg_rl_escaped_has_markers() {
    let seg = PromptSegment::styled("x", Style::bold());
    let e = seg.render_rl_escaped();
    assert!(e.contains('\x01'));
    assert!(e.contains('\x02'));
    assert!(e.contains('x'));
}

#[test]
fn seg_plain_rl_escaped_no_markers() {
    assert_eq!(PromptSegment::plain("$ ").render_rl_escaped(), "$ ");
}

#[test]
fn seg_empty_text_plain() {
    // Empty segment — push should drop it
    let seg = PromptSegment::plain("");
    assert_eq!(seg.display_width(), 0);
}

// -- Prompt construction --
#[test]
fn prompt_plain_width() {
    assert_eq!(Prompt::plain("myapp $ ").display_width(), 8);
}

#[test]
fn prompt_new_empty() {
    let p = Prompt::new();
    assert!(p.is_empty());
    assert_eq!(p.display_width(), 0);
}

#[test]
fn prompt_push_count() {
    let mut p = Prompt::new();
    p.push(PromptSegment::plain("a"));
    p.push(PromptSegment::plain("b"));
    assert_eq!(p.segment_count(), 2);
}

#[test]
fn prompt_empty_seg_not_added() {
    let mut p = Prompt::new();
    p.push(PromptSegment::plain(""));
    assert!(p.is_empty());
}

#[test]
fn prompt_visible_text_strips() {
    let mut p = Prompt::new();
    p.push(PromptSegment::styled("user", Style::bold_fg(Color::green())));
    p.push(PromptSegment::plain("@host $ "));
    assert_eq!(p.visible_text(), "user@host $ ");
}

#[test]
fn prompt_display_width_multi() {
    let mut p = Prompt::new();
    p.push(PromptSegment::styled("user", Style::bold_fg(Color::green())));
    p.push(PromptSegment::plain("@host:~ $ "));
    assert_eq!(p.display_width(), 14);
}

#[test]
fn prompt_render_has_ansi() {
    let mut p = Prompt::new();
    p.push(PromptSegment::styled("ok", Style::fg(Color::green())));
    let r = p.render();
    assert!(r.contains("\x1b[") && r.contains("ok") && r.contains("\x1b[0m"));
}

// -- from_raw --
#[test]
fn prompt_from_raw_ansi() {
    let p = Prompt::from_raw("\x1b[32muser\x1b[0m@host $ ");
    assert_eq!(p.visible_text(), "user@host $ ");
    assert_eq!(p.display_width(), 12);
}

#[test]
fn prompt_from_raw_rl_markers() {
    let p = Prompt::from_raw("\x01\x1b[32m\x02user\x01\x1b[0m\x02 $ ");
    assert_eq!(p.visible_text(), "user $ ");
    assert_eq!(p.display_width(), 7);
}

#[test]
fn prompt_from_raw_empty() {
    let p = Prompt::from_raw("");
    assert!(p.is_empty());
}

#[test]
fn prompt_from_raw_plain() {
    let p = Prompt::from_raw("$ ");
    assert_eq!(p.display_width(), 2);
}

// -- expand (multiline) --
#[test]
fn prompt_expand_no_newline() {
    let (prefix, last) = Prompt::expand("user $ ");
    assert!(prefix.is_none());
    assert_eq!(last.display_width(), 7);
}

#[test]
fn prompt_expand_with_newline() {
    let (prefix, last) = Prompt::expand("line1\nuser $ ");
    assert_eq!(prefix.as_deref(), Some("line1\n"));
    assert_eq!(last.display_width(), 7);
}

#[test]
fn prompt_expand_multiple_newlines() {
    let (prefix, last) = Prompt::expand("a\nb\n$ ");
    assert_eq!(prefix.as_deref(), Some("a\nb\n"));
    assert_eq!(last.display_width(), 2);
}

// -- line_count --
#[test]
fn prompt_line_count_single() {
    assert_eq!(Prompt::plain("$ ").line_count(), 1);
}

#[test]
fn prompt_line_count_empty() {
    assert_eq!(Prompt::new().line_count(), 0);
}

#[test]
fn prompt_last_line_width_single() {
    assert_eq!(Prompt::plain("$ ").last_line_width(), 2);
}

// -- invisible_byte_count --
#[test]
fn prompt_invisible_bytes_plain() {
    let p = Prompt::plain("$ ");
    assert_eq!(p.invisible_byte_count(), 0);
}

#[test]
fn prompt_invisible_bytes_styled() {
    let p = Prompt::builder().bold_fg("hi", Color::green()).build();
    // \x1b[1;32m (7 bytes) + \x1b[0m (4 bytes) = 11 invisible bytes
    assert!(p.invisible_byte_count() > 0);
}

// -- search prompts --
#[test]
fn isearch_contains_query() {
    let p = Prompt::for_isearch("cargo", false);
    assert!(p.visible_text().contains("cargo"));
    assert!(p.visible_text().contains("reverse-i-search"));
}

#[test]
fn isearch_failed_prefix() {
    let p = Prompt::for_isearch("xyz", true);
    assert!(p.visible_text().contains("failed"));
}

#[test]
fn isearch_empty_query() {
    let p = Prompt::for_isearch("", false);
    assert!(p.visible_text().contains("reverse-i-search"));
}

#[test]
fn forward_search_prompt() {
    let p = Prompt::for_forward_search("ls", false);
    assert!(p.visible_text().contains("i-search"));
    assert!(p.visible_text().contains("ls"));
}

#[test]
fn forward_search_failed() {
    let p = Prompt::for_forward_search("zz", true);
    assert!(p.visible_text().contains("failed"));
}

// -- PromptState --
#[test]
fn prompt_state_save_restore() {
    let mut state = PromptState::new();
    let p = Prompt::plain("$ ");
    assert!(!state.is_saved());
    state.save(p.clone());
    assert!(state.is_saved());
    let restored = state.restore().unwrap();
    assert_eq!(restored.visible_text(), "$ ");
    assert!(!state.is_saved());
}

#[test]
fn prompt_state_restore_none() {
    let mut state = PromptState::new();
    assert!(state.restore().is_none());
}

// -- strip_ansi_and_rl_markers --
#[test]
fn strip_plain() {
    assert_eq!(strip_ansi_and_rl_markers("hello"), "hello");
}

#[test]
fn strip_sgr() {
    assert_eq!(strip_ansi_and_rl_markers("\x1b[1;32mhello\x1b[0m"), "hello");
}

#[test]
fn strip_rl_markers() {
    assert_eq!(strip_ansi_and_rl_markers("\x01\x1b[32m\x02green\x01\x1b[0m\x02"), "green");
}

#[test]
fn strip_unicode_preserved() {
    assert_eq!(strip_ansi_and_rl_markers("\x1b[34m日本語\x1b[0m"), "日本語");
}

#[test]
fn strip_empty() {
    assert_eq!(strip_ansi_and_rl_markers(""), "");
}

#[test]
fn strip_multiple_seq() {
    assert_eq!(strip_ansi_and_rl_markers("\x1b[1mhello\x1b[0m \x1b[32mworld\x1b[0m"), "hello world");
}

#[test]
fn strip_cursor_movement() {
    // CSI H (cursor position) should be stripped
    assert_eq!(strip_ansi_and_rl_markers("\x1b[1;1Hhello"), "hello");
}

#[test]
fn strip_no_partial_escape() {
    // lone ESC at end should not panic
    let s = "hi\x1b";
    let _ = strip_ansi_and_rl_markers(s);
}

// -- visible_display_width --
#[test]
fn vdw_plain() {
    assert_eq!(visible_display_width("hello $ "), 8);
}

#[test]
fn vdw_with_ansi() {
    assert_eq!(visible_display_width("\x1b[32mhello\x1b[0m $ "), 8);
}

#[test]
fn vdw_wide() {
    assert_eq!(visible_display_width("日本語"), 6);
}

#[test]
fn vdw_empty() {
    assert_eq!(visible_display_width(""), 0);
}

// -- last_line_display_width --
#[test]
fn lldw_single() {
    assert_eq!(last_line_display_width("$ "), 2);
}

#[test]
fn lldw_multiline() {
    assert_eq!(last_line_display_width("prefix\n$ "), 2);
}

#[test]
fn lldw_with_ansi() {
    assert_eq!(last_line_display_width("a\n\x1b[32mhi\x1b[0m$ "), 4);
}

// -- PromptBuilder --
#[test]
fn builder_plain() {
    assert_eq!(PromptBuilder::new().plain("$ ").build().visible_text(), "$ ");
}

#[test]
fn builder_chain() {
    let p = PromptBuilder::new()
        .bold_fg("user", Color::green())
        .plain("@")
        .fg_text("host", Color::blue())
        .plain(" $ ")
        .build();
    assert_eq!(p.visible_text(), "user@host $ ");
    assert_eq!(p.display_width(), 12);
}

#[test]
fn builder_bold() {
    let p = PromptBuilder::new().bold_text("WARN").build();
    assert!(p.render().contains("\x1b[1m"));
}

#[test]
fn builder_custom_style() {
    let s = Style { bold: true, underline: true, fg: Some(Color::yellow()), ..Default::default() };
    let p = PromptBuilder::new().styled("alert", s).build();
    let r = p.render();
    assert!(r.contains("4"));
    assert!(r.contains("33"));
    assert!(r.contains("alert"));
}

// -- display --
#[test]
fn prompt_display() {
    assert_eq!(Prompt::plain("$ ").to_string(), "$ ");
}

// -- message --
#[test]
fn prompt_message() {
    let p = Prompt::message("(arg: 3) ");
    assert_eq!(p.visible_text(), "(arg: 3) ");
}
