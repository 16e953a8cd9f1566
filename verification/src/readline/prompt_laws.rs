//! What holds of prompts as a whole: of what is visible of them, of rendering
//! and stripping, and of lines and widths.

use crate::readline::ansi;
use crate::readline::prompt;
use crate::readline::prompt::Segment;
use crate::readline::style;
use crate::readline::style::{Color, Style};
use crate::readline::text;
use crate::readline::width;
use vstd::prelude::*;
use vstd::string::*;

verus! {

// ---------------------------------------------------------------------
// Visible characters
// ---------------------------------------------------------------------

/// `true` when no character of `s` starts a control sequence.
pub open spec fn printable(s: Seq<char>) -> bool {
    !s.contains('\u{1}') && !s.contains('\u{1b}')
}

/// Nothing that starts a control sequence is visible.
pub proof fn law_visible_is_printable(s: Seq<char>)
    ensures
        printable(ansi::visible(s)),
    decreases s.len(),
{
    if s.len() == 0 {
    } else if ansi::control_len(s) == 0 {
        let rest = ansi::visible(s.skip(1));
        law_visible_is_printable(s.skip(1));
        assert forall|i: int| 0 <= i < ansi::visible(s).len() implies ansi::visible(s)[i]
            != '\u{1}' && ansi::visible(s)[i] != '\u{1b}' by {
            if i > 0 {
                assert(ansi::visible(s)[i] == rest[i - 1]);
                assert(rest.contains(rest[i - 1]));
            }
        }
    } else if ansi::control_len(s) <= s.len() {
        law_visible_is_printable(s.skip(ansi::control_len(s) as int));
    }
}

/// Text without control sequences is visible as it is.
pub proof fn law_printable_is_visible(s: Seq<char>)
    requires
        printable(s),
    ensures
        ansi::visible(s) == s,
{
    lemma_visible_prefix(s, Seq::empty());
    assert(s + Seq::<char>::empty() =~= s);
}

/// Stripping a second time changes nothing.
pub proof fn law_strip_twice(s: Seq<char>)
    ensures
        ansi::visible(ansi::visible(s)) == ansi::visible(s),
{
    law_visible_is_printable(s);
    law_printable_is_visible(ansi::visible(s));
}

/// Printable text before other text is visible as it is.
proof fn lemma_visible_prefix(s: Seq<char>, rest: Seq<char>)
    requires
        printable(s),
    ensures
        ansi::visible(s + rest) == s + ansi::visible(rest),
    decreases s.len(),
{
    let all = s + rest;
    if s.len() == 0 {
        assert(all =~= rest);
        assert(s + ansi::visible(rest) =~= ansi::visible(rest));
    } else {
        assert(s.contains(s[0]));
        assert(all[0] == s[0]);
        let tail = s.skip(1);
        assert forall|i: int| 0 <= i < tail.len() implies tail[i] != '\u{1}' && tail[i]
            != '\u{1b}' by {
            assert(tail[i] == s[i + 1]);
            assert(s.contains(s[i + 1]));
        }
        lemma_visible_prefix(tail, rest);
        assert(all.skip(1) =~= tail + rest);
        assert(seq![s[0]] + (tail + ansi::visible(rest)) =~= s + ansi::visible(rest));
    }
}

// ---------------------------------------------------------------------
// Rendering and stripping
// ---------------------------------------------------------------------

/// `true` when `s` holds digits and semicolons only.
spec fn numeric(s: Seq<char>) -> bool {
    forall|i: int| 0 <= i < s.len() ==> text::is_digit(#[trigger] s[i]) || s[i] == ';'
}

proof fn lemma_numeric_joins(a: Seq<char>, b: Seq<char>)
    requires
        numeric(a),
        numeric(b),
    ensures
        numeric(a + b),
{
}

proof fn lemma_decimal_numeric(n: nat)
    ensures
        numeric(text::decimal(n)),
{
    text::lemma_decimal(n);
}

proof fn lemma_components_numeric(r: u8, g: u8, b: u8)
    ensures
        numeric(style::components(r, g, b)),
{
    lemma_decimal_numeric(r as nat);
    lemma_decimal_numeric(g as nat);
    lemma_decimal_numeric(b as nat);
}

/// The parameters of a colour are digits and semicolons.
proof fn lemma_color_numeric(color: Color)
    ensures
        numeric(color.fg_parameters()),
        numeric(color.bg_parameters()),
{
    reveal_strlit("38;5;");
    reveal_strlit("48;5;");
    reveal_strlit("38;2;");
    reveal_strlit("48;2;");
    reveal_strlit("39");
    reveal_strlit("49");
    match color {
        Color::Ansi(n) => {
            lemma_decimal_numeric(n as nat);
            lemma_decimal_numeric((n + 10) as nat);
        },
        Color::Palette(n) => {
            lemma_decimal_numeric(n as nat);
            lemma_numeric_joins("38;5;"@, text::decimal(n as nat));
            lemma_numeric_joins("48;5;"@, text::decimal(n as nat));
        },
        Color::Rgb(r, g, b) => {
            lemma_components_numeric(r, g, b);
            lemma_numeric_joins("38;2;"@, style::components(r, g, b));
            lemma_numeric_joins("48;2;"@, style::components(r, g, b));
        },
        Color::Default => {},
    }
}

/// Joined parameters are digits and semicolons.
proof fn lemma_joined_numeric(parameters: Seq<Seq<char>>)
    requires
        forall|i: int| 0 <= i < parameters.len() ==> numeric(#[trigger] parameters[i]),
    ensures
        numeric(style::joined(parameters)),
    decreases parameters.len(),
{
    if parameters.len() > 1 {
        lemma_joined_numeric(parameters.drop_last());
        lemma_numeric_joins(style::joined(parameters.drop_last()), seq![';']);
        lemma_numeric_joins(
            style::joined(parameters.drop_last()) + seq![';'],
            parameters.last(),
        );
    }
}

/// The parameters of a style are digits and semicolons.
proof fn lemma_style_numeric(style: Style)
    ensures
        numeric(style::joined(style.parameters())),
{
    let parameters = style.parameters();
    assert(forall|i: int|
        0 <= i < style.attributes().len() ==> numeric(#[trigger] style.attributes()[i]));
    if style.fg is Some {
        lemma_color_numeric(style.fg->0);
    }
    if style.bg is Some {
        lemma_color_numeric(style.bg->0);
    }
    lemma_joined_numeric(parameters);
}

/// A sequence `\x1b[...m` is not visible.
proof fn lemma_sequence_invisible(parameters: Seq<char>, rest: Seq<char>)
    requires
        numeric(parameters),
    ensures
        ansi::visible(seq!['\u{1b}', '['] + parameters + seq!['m'] + rest) == ansi::visible(rest),
{
    let s = seq!['\u{1b}', '['] + parameters + seq!['m'] + rest;
    let n = parameters.len();
    let t = s.skip(2);
    assert forall|i: int| 0 <= i < n implies '\u{20}' <= #[trigger] t[i] <= '\u{3f}' by {
        assert(t[i] == parameters[i]);
    }
    assert(t[n as int] == 'm');
    ansi::lemma_parameter_run(t, n);
    assert(s[2 + n as int] == 'm');
    assert(ansi::control_len(s) == n + 3);
    assert(s.skip(n as int + 3) =~= rest);
}

/// A part between `\x01` and `\x02` is not visible.
proof fn lemma_marked_invisible(part: Seq<char>, rest: Seq<char>)
    requires
        !part.contains('\u{2}'),
    ensures
        ansi::visible(seq!['\u{1}'] + part + seq!['\u{2}'] + rest) == ansi::visible(rest),
{
    let s = seq!['\u{1}'] + part + seq!['\u{2}'] + rest;
    let n = part.len();
    let t = s.skip(1);
    assert forall|i: int| 0 <= i < n implies #[trigger] t[i] != '\u{2}' by {
        assert(t[i] == part[i]);
        assert(part.contains(part[i]));
    }
    assert(t[n as int] == '\u{2}');
    ansi::lemma_marked_run(t, n);
    assert(ansi::control_len(s) == n + 2);
    assert(s.skip(n as int + 2) =~= rest);
}

/// What switches a style on or off is not visible, and holds no `\x02`.
proof fn lemma_style_invisible(style: Style, rest: Seq<char>)
    ensures
        ansi::visible(style.on_sequence() + rest) == ansi::visible(rest),
        ansi::visible(style.off_sequence() + rest) == ansi::visible(rest),
        !style.on_sequence().contains('\u{2}'),
        !style.off_sequence().contains('\u{2}'),
{
    if style == Style::unstyled() {
        assert(style.on_sequence() + rest =~= rest);
        assert(style.off_sequence() + rest =~= rest);
    } else {
        let parameters = style::joined(style.parameters());
        lemma_style_numeric(style);
        lemma_sequence_invisible(parameters, rest);
        lemma_sequence_invisible(seq!['0'], rest);
        assert(style.off_sequence() =~= seq!['\u{1b}', '['] + seq!['0'] + seq!['m']);
        let on = style.on_sequence();
        assert forall|i: int| 0 <= i < on.len() implies on[i] != '\u{2}' by {
            if 2 <= i < 2 + parameters.len() {
                assert(on[i] == parameters[i - 2]);
            }
        }
    }
}

/// Of a rendered segment its text is visible.
proof fn lemma_segment_visible(segment: Segment, rest: Seq<char>)
    requires
        printable(segment.text),
    ensures
        ansi::visible(segment.rendered() + rest) == segment.text + ansi::visible(rest),
        ansi::visible(segment.rendered_marked() + rest) == segment.text + ansi::visible(rest),
{
    match segment.style {
        None => {
            lemma_visible_prefix(segment.text, rest);
        },
        Some(style) => {
            let on = style.on_sequence();
            let off = style.off_sequence();
            let shown = segment.text;
            lemma_style_invisible(style, shown + (off + rest));
            lemma_style_invisible(style, rest);
            lemma_visible_prefix(shown, off + rest);
            assert(segment.rendered() + rest =~= on + (shown + (off + rest)));

            let marked_off = seq!['\u{1}'] + off + seq!['\u{2}'] + rest;
            lemma_marked_invisible(off, rest);
            lemma_visible_prefix(shown, marked_off);
            lemma_marked_invisible(on, shown + marked_off);
            assert(segment.rendered_marked() + rest =~= seq!['\u{1}'] + on + seq!['\u{2}'] + (shown
                + marked_off));
        },
    }
}

/// `true` when the text of every segment is printable.
pub open spec fn all_printable(segments: Seq<Segment>) -> bool {
    forall|i: int| 0 <= i < segments.len() ==> printable((#[trigger] segments[i]).text)
}

proof fn lemma_segments_visible(segments: Seq<Segment>, rest: Seq<char>)
    requires
        all_printable(segments),
    ensures
        ansi::visible(prompt::rendering_of(segments) + rest) == prompt::text_of(segments)
            + ansi::visible(rest),
        ansi::visible(prompt::marked_rendering_of(segments) + rest) == prompt::text_of(segments)
            + ansi::visible(rest),
    decreases segments.len(),
{
    if segments.len() == 0 {
        assert(Seq::<char>::empty() + rest =~= rest);
        assert(Seq::<char>::empty() + ansi::visible(rest) =~= ansi::visible(rest));
    } else {
        let front = segments.drop_last();
        let last = segments.last();
        assert forall|i: int| 0 <= i < front.len() implies printable(
            (#[trigger] front[i]).text,
        ) by {
            assert(front[i] == segments[i]);
        }
        lemma_segment_visible(last, rest);
        lemma_segments_visible(front, last.rendered() + rest);
        lemma_segments_visible(front, last.rendered_marked() + rest);
        assert(prompt::rendering_of(segments) + rest =~= prompt::rendering_of(front) + (
        last.rendered() + rest));
        assert(prompt::marked_rendering_of(segments) + rest =~= prompt::marked_rendering_of(front)
            + (last.rendered_marked() + rest));
        assert(prompt::text_of(front) + (last.text + ansi::visible(rest)) =~= prompt::text_of(
            segments,
        ) + ansi::visible(rest));
    }
}

/// Of a prompt whose text holds no control sequences, exactly its text is visible
/// once it is rendered, with markers or without.
pub proof fn law_rendering_shows_text(segments: Seq<Segment>)
    requires
        all_printable(segments),
    ensures
        ansi::visible(prompt::rendering_of(segments)) == prompt::text_of(segments),
        ansi::visible(prompt::marked_rendering_of(segments)) == prompt::text_of(segments),
{
    let none = Seq::<char>::empty();
    lemma_segments_visible(segments, none);
    assert(prompt::rendering_of(segments) + none =~= prompt::rendering_of(segments));
    assert(prompt::marked_rendering_of(segments) + none =~= prompt::marked_rendering_of(segments));
    assert(prompt::text_of(segments) + none =~= prompt::text_of(segments));
}

/// A prompt that is read back from its rendering has the same visible text.
pub proof fn law_read_back(segments: Seq<Segment>)
    requires
        all_printable(segments),
    ensures
        prompt::text_of(
            prompt::with_segment(
                Seq::empty(),
                Segment { text: ansi::visible(prompt::rendering_of(segments)), style: None },
            ),
        ) == prompt::text_of(segments),
{
    law_rendering_shows_text(segments);
    law_push_adds_text(
        Seq::empty(),
        Segment { text: prompt::text_of(segments), style: None },
    );
    assert(Seq::<char>::empty() + prompt::text_of(segments) =~= prompt::text_of(segments));
}

/// The style without attributes adds nothing to a text.
pub proof fn law_plain_style_adds_nothing(text: Seq<char>)
    ensures
        Segment::in_style(text, Style::unstyled()).rendered() == text,
        Segment::in_style(text, Style::unstyled()).rendered_marked() == text,
{
}

// ---------------------------------------------------------------------
// Text, lines and widths
// ---------------------------------------------------------------------

/// Adding a segment adds its text, also where it is dropped for being empty.
pub proof fn law_push_adds_text(segments: Seq<Segment>, segment: Segment)
    ensures
        prompt::text_of(prompt::with_segment(segments, segment)) == prompt::text_of(segments)
            + segment.text,
{
    if segment.text.len() == 0 {
        assert(prompt::text_of(segments) + segment.text =~= prompt::text_of(segments));
    } else {
        assert(segments.push(segment).drop_last() =~= segments);
    }
}

/// A prompt is empty exactly where its visible text is.
pub proof fn law_empty_prompt(segments: Seq<Segment>)
    requires
        prompt::none_empty(segments),
    ensures
        (segments.len() == 0) == (prompt::text_of(segments).len() == 0),
{
    if segments.len() > 0 {
        assert(segments.last() == segments[segments.len() - 1]);
    }
}

/// Styling takes no columns: prompts with the same texts have the same width.
pub proof fn law_style_has_no_width(first: Seq<Segment>, second: Seq<Segment>)
    requires
        first.len() == second.len(),
        forall|i: int|
            0 <= i < first.len() ==> (#[trigger] first[i]).text == (#[trigger] second[i]).text,
    ensures
        prompt::total(prompt::widths_of(first)) == prompt::total(prompt::widths_of(second)),
{
    assert forall|i: int| 0 <= i < first.len() implies prompt::widths_of(first)[i]
        == prompt::widths_of(second)[i] by {
        assert(first[i].text == second[i].text);
    }
    assert(prompt::widths_of(first) =~= prompt::widths_of(second));
}

/// The two parts of an expanded prompt make up the raw prompt, and the second
/// one holds no line feed.
pub proof fn law_expand_parts(raw: Seq<char>)
    ensures
        raw.take(raw.len() - text::last_line(raw).len()) + text::last_line(raw) == raw,
        !text::last_line(raw).contains('\n'),
        !raw.contains('\n') ==> text::last_line(raw) == raw,
{
    text::lemma_last_line(raw);
    let n = raw.len() - text::last_line(raw).len();
    assert(raw.take(n) + raw.skip(n) =~= raw);
    if n > 0 {
        assert(raw.contains(raw[n - 1]));
    } else {
        assert(raw.skip(0) =~= raw);
    }
}

/// Where the visible characters hold no line feed, those of the last line are
/// all of them, and take the same number of columns.
pub proof fn law_single_line_width(s: Seq<char>)
    requires
        !ansi::visible(s).contains('\n'),
    ensures
        width::column_width(text::last_line(ansi::visible(s))) == width::column_width(
            ansi::visible(s),
        ),
{
    law_expand_parts(ansi::visible(s));
}

/// A text without line feeds is one line, unless it is empty.
proof fn lemma_single_line(s: Seq<char>)
    requires
        !s.contains('\n'),
    ensures
        text::lines_of(s) == if s.len() == 0 {
            Seq::<Seq<char>>::empty()
        } else {
            seq![s]
        },
{
    if s.len() > 0 {
        assert forall|i: int| 0 <= i < s.len() implies s[i] != '\n' by {
            assert(s.contains(s[i]));
        }
        text::lemma_line_feed_unique(s, s.len() as int);
    }
}

/// A prompt has no lines exactly where it has no visible text, and one line where
/// that text holds no line feed.
pub proof fn law_line_count(segments: Seq<Segment>)
    ensures
        (text::lines_of(prompt::text_of(segments)).len() == 0) == (prompt::text_of(segments).len()
            == 0),
        prompt::text_of(segments).len() > 0 && !prompt::text_of(segments).contains('\n')
            ==> text::lines_of(prompt::text_of(segments)).len() == 1,
{
    let s = prompt::text_of(segments);
    if !s.contains('\n') {
        lemma_single_line(s);
    }
}

/// The last line of a prompt without line feeds takes as many columns as the
/// prompt, where the widths of its segments add up to that of its text. They do
/// where there is one segment.
pub proof fn law_single_line_prompt_width(segments: Seq<Segment>)
    requires
        !prompt::text_of(segments).contains('\n'),
        segments.len() == 1 || prompt::total(prompt::widths_of(segments)) == width::column_width(
            prompt::text_of(segments),
        ),
    ensures
        width::column_width(prompt::last_of(text::lines_of(prompt::text_of(segments))))
            == prompt::total(prompt::widths_of(segments)),
{
    let s = prompt::text_of(segments);
    lemma_single_line(s);
    assert(prompt::last_of(text::lines_of(s)) =~= s);
    if segments.len() == 1 {
        assert(segments.drop_last() =~= Seq::<Segment>::empty());
        assert(prompt::text_of(segments.drop_last()) =~= Seq::<char>::empty());
        assert(s =~= segments[0].text);
        assert(prompt::widths_of(segments).drop_last() =~= Seq::<int>::empty());
        assert(prompt::total(prompt::widths_of(segments).drop_last()) == 0);
    }
}

/// A search prompt shows its label, what is searched for and the closing quote.
pub proof fn law_search_prompt_text(label: Seq<char>, query: Seq<char>)
    ensures
        prompt::text_of(prompt::search_segments(label, query)) == label + query + "': "@,
{
    let cyan = Style { fg: Some(Color::Ansi(36)), ..Style::unstyled() };
    let first = seq![Segment { text: label, style: Some(cyan) }];
    let asked = Segment { text: query, style: None };
    let end = Segment { text: "': "@, style: None };
    assert(first.drop_last() =~= Seq::<Segment>::empty());
    assert(prompt::text_of(first.drop_last()) =~= Seq::<char>::empty());
    assert(prompt::text_of(first) =~= label);
    law_push_adds_text(first, asked);
    let two = prompt::with_segment(first, asked);
    assert(two.push(end).drop_last() =~= two);
}

// ---------------------------------------------------------------------
// Which characters are visible
// ---------------------------------------------------------------------

/// A character that starts no control sequence is visible, and so is what is
/// visible of the rest. Nothing is visible of nothing.
pub proof fn law_visible_character(c: char, rest: Seq<char>)
    requires
        c != '\u{1}',
        c != '\u{1b}',
    ensures
        ansi::visible(seq![c] + rest) == seq![c] + ansi::visible(rest),
        ansi::visible(Seq::<char>::empty()) == Seq::<char>::empty(),
{
    let s = seq![c] + rest;
    assert(s.skip(1) =~= rest);
}

/// `\x1b[` hides itself and the characters from `\x20` to `\x3f` behind it; then one
/// character from `\x40` to `\x7e`, but no other one.
pub proof fn law_hidden_sequence(parameters: Seq<char>, last: char, rest: Seq<char>)
    requires
        forall|i: int|
            0 <= i < parameters.len() ==> '\u{20}' <= #[trigger] parameters[i] <= '\u{3f}',
        !('\u{20}' <= last <= '\u{3f}'),
    ensures
        '\u{40}' <= last <= '\u{7e}' ==> ansi::visible(
            seq!['\u{1b}', '['] + parameters + seq![last] + rest,
        ) == ansi::visible(rest),
        !('\u{40}' <= last <= '\u{7e}') ==> ansi::visible(
            seq!['\u{1b}', '['] + parameters + seq![last] + rest,
        ) == ansi::visible(seq![last] + rest),
        ansi::visible(seq!['\u{1b}', '['] + parameters) == Seq::<char>::empty(),
{
    let n = parameters.len();
    let open = seq!['\u{1b}', '['] + parameters;
    let s = open + seq![last] + rest;
    let t = s.skip(2);
    assert forall|i: int| 0 <= i < n implies '\u{20}' <= #[trigger] t[i] <= '\u{3f}' by {
        assert(t[i] == parameters[i]);
    }
    assert(t[n as int] == last);
    ansi::lemma_parameter_run(t, n);
    assert(s[2 + n as int] == last);
    assert(s.skip(n as int + 3) =~= rest);
    assert(s.skip(n as int + 2) =~= seq![last] + rest);
    assert(open.skip(2) =~= parameters);
    ansi::lemma_parameter_run(parameters, n);
    assert(ansi::control_len(open) == open.len());
    assert(open.skip(open.len() as int) =~= Seq::<char>::empty());
    assert(ansi::visible(Seq::<char>::empty()) =~= Seq::<char>::empty());
}

/// Any other `\x1b` hides itself and the character behind it, if there is one.
pub proof fn law_hidden_escape(c: char, rest: Seq<char>)
    requires
        c != '[',
    ensures
        ansi::visible(seq!['\u{1b}', c] + rest) == ansi::visible(rest),
        ansi::visible(seq!['\u{1b}']) == Seq::<char>::empty(),
{
    let s = seq!['\u{1b}', c] + rest;
    assert(s.skip(2) =~= rest);
    let lone = seq!['\u{1b}'];
    assert(lone.skip(1) =~= Seq::<char>::empty());
    assert(ansi::visible(Seq::<char>::empty()) =~= Seq::<char>::empty());
}

/// `\x01` hides everything up to and with the next `\x02`, or up to the end.
pub proof fn law_hidden_part(part: Seq<char>, rest: Seq<char>)
    requires
        !part.contains('\u{2}'),
    ensures
        ansi::visible(seq!['\u{1}'] + part + seq!['\u{2}'] + rest) == ansi::visible(rest),
        ansi::visible(seq!['\u{1}'] + part) == Seq::<char>::empty(),
{
    lemma_marked_invisible(part, rest);
    let s = seq!['\u{1}'] + part;
    let n = part.len();
    let t = s.skip(1);
    assert(t =~= part);
    assert forall|i: int| 0 <= i < n implies #[trigger] t[i] != '\u{2}' by {
        assert(part.contains(part[i]));
    }
    ansi::lemma_marked_run(t, n);
    assert(s.skip(s.len() as int) =~= Seq::<char>::empty());
    assert(ansi::visible(Seq::<char>::empty()) =~= Seq::<char>::empty());
}

// ---------------------------------------------------------------------
// Styles
// ---------------------------------------------------------------------

/// `true` when a style sets a colour or an attribute.
pub open spec fn sets_something(style: Style) -> bool {
    style.fg is Some || style.bg is Some || style.bold || style.dim || style.italic
        || style.underline || style.blink || style.reverse
}

/// A segment in a style that sets anything begins with an escape sequence and ends
/// in the reset, so that what follows it is shown in the terminal's default
/// style. Its text stands between them. With markers, both sequences stand
/// between `\x01` and `\x02`.
pub proof fn law_styled_segment(text: Seq<char>, style: Style)
    requires
        sets_something(style),
    ensures
        ({
            let reset = seq!['\u{1b}', '[', '0', 'm'];
            let segment = Segment { text, style: Some(style) };
            let on = style.on_sequence();
            &&& segment.rendered() == on + text + reset
            &&& segment.rendered_marked() == seq!['\u{1}'] + on + seq!['\u{2}'] + text + seq![
                '\u{1}',
            ] + reset + seq!['\u{2}']
            &&& on.len() > 3
            &&& on[0] == '\u{1b}'
            &&& on[1] == '['
            &&& on.last() == 'm'
        }),
{
    law_on_sequence(style);
    let on = style.on_sequence();
    let codes = codes_of(style);
    lemma_codes_len(style);
    assert(on.len() == codes.len() + 2);
}

/// A segment without a style, or in one that sets nothing, is its text alone. A
/// style that sets something is kept with its text.
pub proof fn law_segment_style(text: Seq<char>, style: Style)
    ensures
        (Segment { text, style: None }).rendered() == text,
        (Segment { text, style: None }).rendered_marked() == text,
        sets_something(style) ==> Segment::in_style(text, style) == (Segment {
            text,
            style: Some(style),
        }),
        !sets_something(style) ==> Segment::in_style(text, style) == (Segment {
            text,
            style: None,
        }),
        !sets_something(style) ==> style.on_sequence().len() == 0 && style.off_sequence().len()
            == 0,
{
    if !sets_something(style) {
        assert(style == Style::unstyled());
    }
}

/// The codes of the attributes that a style sets, each with a semicolon behind it.
pub open spec fn attribute_codes(style: Style) -> Seq<char> {
    let none = Seq::<char>::empty();
    (if style.bold { seq!['1', ';'] } else { none })
        + (if style.dim { seq!['2', ';'] } else { none })
        + (if style.italic { seq!['3', ';'] } else { none })
        + (if style.underline { seq!['4', ';'] } else { none })
        + (if style.blink { seq!['5', ';'] } else { none })
        + (if style.reverse { seq!['7', ';'] } else { none })
}

/// The code of a colour, if there is one, with a semicolon behind it.
pub open spec fn color_code(code: Option<Seq<char>>) -> Seq<char> {
    match code {
        Some(parameters) => parameters + seq![';'],
        None => Seq::empty(),
    }
}

/// The foreground code of a style, if it has one.
pub open spec fn fg_of(style: Style) -> Option<Seq<char>> {
    match style.fg {
        Some(color) => Some(color.fg_parameters()),
        None => None,
    }
}

/// The background code of a style, if it has one.
pub open spec fn bg_of(style: Style) -> Option<Seq<char>> {
    match style.bg {
        Some(color) => Some(color.bg_parameters()),
        None => None,
    }
}

/// The codes of what a style sets, each with a semicolon behind it: attributes,
/// foreground, background.
pub open spec fn codes_of(style: Style) -> Seq<char> {
    attribute_codes(style) + color_code(fg_of(style)) + color_code(bg_of(style))
}

/// The parameters with a semicolon behind each.
spec fn closed(parameters: Seq<Seq<char>>) -> Seq<char>
    decreases parameters.len(),
{
    if parameters.len() == 0 {
        Seq::empty()
    } else {
        closed(parameters.drop_last()) + parameters.last() + seq![';']
    }
}

/// Parameters with a semicolon behind each are the joined ones with one behind.
proof fn lemma_closed(parameters: Seq<Seq<char>>)
    requires
        parameters.len() > 0,
    ensures
        closed(parameters) == style::joined(parameters) + seq![';'],
    decreases parameters.len(),
{
    if parameters.len() == 1 {
        assert(closed(parameters.drop_last()) =~= Seq::<char>::empty());
        assert(closed(parameters) =~= parameters[0] + seq![';']);
    } else {
        lemma_closed(parameters.drop_last());
        assert(closed(parameters) =~= style::joined(parameters) + seq![';']);
    }
}

/// One more parameter.
proof fn lemma_closed_push(parameters: Seq<Seq<char>>, more: Seq<char>)
    ensures
        closed(parameters.push(more)) == closed(parameters) + more + seq![';'],
{
    assert(parameters.push(more).drop_last() =~= parameters);
}

/// One more attribute.
proof fn lemma_closed_attribute(parameters: Seq<Seq<char>>, set: bool, parameter: char)
    ensures
        closed(parameters + style::attribute(set, parameter)) == closed(parameters) + (if set {
            seq![parameter, ';']
        } else {
            Seq::<char>::empty()
        }),
{
    if set {
        assert(parameters + style::attribute(set, parameter) =~= parameters.push(seq![parameter]));
        lemma_closed_push(parameters, seq![parameter]);
        assert(closed(parameters) + seq![parameter] + seq![';'] =~= closed(parameters) + seq![
            parameter,
            ';',
        ]);
    } else {
        assert(parameters + style::attribute(set, parameter) =~= parameters);
        assert(closed(parameters) + Seq::<char>::empty() =~= closed(parameters));
    }
}

/// What is written of the attributes.
proof fn lemma_closed_attributes(style: Style)
    ensures
        closed(style.attributes()) == attribute_codes(style),
{
    let none = Seq::<Seq<char>>::empty();
    let a1 = style::attribute(style.bold, '1');
    let a2 = a1 + style::attribute(style.dim, '2');
    let a3 = a2 + style::attribute(style.italic, '3');
    let a4 = a3 + style::attribute(style.underline, '4');
    let a5 = a4 + style::attribute(style.blink, '5');
    lemma_closed_attribute(none, style.bold, '1');
    assert(none + a1 =~= a1);
    assert(closed(none) =~= Seq::<char>::empty());
    assert(closed(a1) =~= (if style.bold {
        seq!['1', ';']
    } else {
        Seq::<char>::empty()
    }));
    lemma_closed_attribute(a1, style.dim, '2');
    lemma_closed_attribute(a2, style.italic, '3');
    lemma_closed_attribute(a3, style.underline, '4');
    lemma_closed_attribute(a4, style.blink, '5');
    lemma_closed_attribute(a5, style.reverse, '7');
}

/// The row of parameters with those of the colours behind it.
spec fn with_colors(
    parameters: Seq<Seq<char>>,
    fg: Option<Seq<char>>,
    bg: Option<Seq<char>>,
) -> Seq<Seq<char>> {
    let with_fg = match fg {
        Some(code) => parameters.push(code),
        None => parameters,
    };
    match bg {
        Some(code) => with_fg.push(code),
        None => with_fg,
    }
}

/// What is written of the colours.
proof fn lemma_closed_colors(
    parameters: Seq<Seq<char>>,
    fg: Option<Seq<char>>,
    bg: Option<Seq<char>>,
)
    ensures
        closed(with_colors(parameters, fg, bg)) == closed(parameters) + color_code(fg)
            + color_code(bg),
{
    let with_fg = with_colors(parameters, fg, None);
    if let Some(code) = fg {
        lemma_closed_push(parameters, code);
    }
    assert(closed(with_fg) =~= closed(parameters) + color_code(fg));
    if let Some(code) = bg {
        lemma_closed_push(with_fg, code);
    }
    assert(closed(with_colors(parameters, fg, bg)) =~= closed(with_fg) + color_code(bg));
}

/// Joined parameters are the codes without the last semicolon.
proof fn lemma_joined_codes(parameters: Seq<Seq<char>>, codes: Seq<char>)
    requires
        parameters.len() > 0,
        closed(parameters) == codes,
    ensures
        codes.len() > 0,
        style::joined(parameters) == codes.drop_last(),
{
    lemma_closed(parameters);
    assert(codes.drop_last() =~= style::joined(parameters));
}

/// What switches a style on: `\x1b[`, the codes of the attributes and colours that
/// it sets, in their order and parted by semicolons, and `m`.
pub proof fn law_on_sequence(style: Style)
    requires
        sets_something(style),
    ensures
        style.on_sequence() == seq!['\u{1b}', '['] + codes_of(style).drop_last() + seq!['m'],
        codes_of(style).len() > 0,
{
    lemma_some_parameter(style);
    lemma_closed_attributes(style);
    lemma_closed_colors(style.attributes(), fg_of(style), bg_of(style));
    assert(style.parameters() == with_colors(style.attributes(), fg_of(style), bg_of(style)));
    lemma_joined_codes(style.parameters(), codes_of(style));
}

/// A style that sets something has a parameter.
proof fn lemma_some_parameter(style: Style)
    requires
        sets_something(style),
    ensures
        style.parameters().len() > 0,
        style != Style::unstyled(),
{
    if style.fg is None && style.bg is None {
        let b = style::attribute(style.bold, '1').len() + style::attribute(style.dim, '2').len()
            + style::attribute(style.italic, '3').len() + style::attribute(
            style.underline,
            '4',
        ).len() + style::attribute(style.blink, '5').len() + style::attribute(
            style.reverse,
            '7',
        ).len();
        assert(style.attributes().len() == b);
        assert(b > 0);
    }
}

/// The codes of a style take more than a semicolon.
proof fn lemma_codes_len(style: Style)
    requires
        sets_something(style),
    ensures
        codes_of(style).len() > 1,
{
    if style.fg is Some {
        lemma_color_len(style.fg->0);
    }
    if style.bg is Some {
        lemma_color_len(style.bg->0);
    }
}

/// The parameters of a colour are not empty.
proof fn lemma_color_len(color: Color)
    ensures
        color.fg_parameters().len() > 0,
        color.bg_parameters().len() > 0,
{
    reveal_strlit("38;5;");
    reveal_strlit("48;5;");
    reveal_strlit("38;2;");
    reveal_strlit("48;2;");
    reveal_strlit("39");
    reveal_strlit("49");
    if let Color::Ansi(n) = color {
        text::lemma_decimal(n as nat);
        text::lemma_decimal((n + 10) as nat);
    }
}

/// The background code of an ANSI colour is the foreground code of the one ten
/// above it; that of any other colour is its foreground code with a `4` in place
/// of the `3` at the start.
pub proof fn law_background_code(color: Color)
    requires
        color.has_background(),
    ensures
        color matches Color::Ansi(n) ==> color.bg_parameters() == Color::Ansi(
            (n + 10) as u8,
        ).fg_parameters(),
        !(color is Ansi) ==> color.fg_parameters().len() > 0 && color.fg_parameters()[0] == '3'
            && color.bg_parameters() == seq!['4'] + color.fg_parameters().skip(1),
{
    reveal_strlit("38;5;");
    reveal_strlit("48;5;");
    reveal_strlit("38;2;");
    reveal_strlit("48;2;");
    reveal_strlit("39");
    reveal_strlit("49");
    if !(color is Ansi) {
        assert(color.bg_parameters() =~= seq!['4'] + color.fg_parameters().skip(1));
    }
}

/// The foreground codes: an ANSI colour has its number, a palette colour `38;5;` and
/// its index, a 24-bit colour `38;2;` and its three components parted by
/// semicolons, the default colour `39`.
pub proof fn law_foreground_code(n: u8, r: u8, g: u8, b: u8)
    ensures
        Color::Ansi(n).fg_parameters() == text::decimal(n as nat),
        Color::Palette(n).fg_parameters() == seq!['3', '8', ';', '5', ';'] + text::decimal(
            n as nat,
        ),
        Color::Rgb(r, g, b).fg_parameters() == seq!['3', '8', ';', '2', ';'] + text::decimal(
            r as nat,
        ) + seq![';'] + text::decimal(g as nat) + seq![';'] + text::decimal(b as nat),
        Color::Default.fg_parameters() == seq!['3', '9'],
{
    reveal_strlit("38;5;");
    reveal_strlit("38;2;");
    reveal_strlit("39");
    assert("38;5;"@ =~= seq!['3', '8', ';', '5', ';']);
    assert(Color::Rgb(r, g, b).fg_parameters() =~= seq!['3', '8', ';', '2', ';'] + text::decimal(
        r as nat,
    ) + seq![';'] + text::decimal(g as nat) + seq![';'] + text::decimal(b as nat));
    assert("39"@ =~= seq!['3', '9']);
}

// ---------------------------------------------------------------------
// Rows of segments
// ---------------------------------------------------------------------

/// A segment with text is added behind the others as it is, one without text not
/// at all.
pub proof fn law_push_segment(segments: Seq<Segment>, segment: Segment)
    ensures
        segment.text.len() > 0 ==> prompt::with_segment(segments, segment) == segments.push(
            segment,
        ),
        segment.text.len() == 0 ==> prompt::with_segment(segments, segment) == segments,
{
}

/// Text, rendering and width of a row of segments are those of the first ones and
/// of the last one put together.
pub proof fn law_rows(segments: Seq<Segment>, segment: Segment)
    ensures
        prompt::text_of(Seq::empty()).len() == 0,
        prompt::rendering_of(Seq::empty()).len() == 0,
        prompt::marked_rendering_of(Seq::empty()).len() == 0,
        prompt::total(prompt::widths_of(Seq::empty())) == 0,
        prompt::text_of(segments.push(segment)) == prompt::text_of(segments) + segment.text,
        prompt::rendering_of(segments.push(segment)) == prompt::rendering_of(segments)
            + segment.rendered(),
        prompt::marked_rendering_of(segments.push(segment)) == prompt::marked_rendering_of(
            segments,
        ) + segment.rendered_marked(),
        prompt::total(prompt::widths_of(segments.push(segment))) == prompt::total(
            prompt::widths_of(segments),
        ) + width::column_width(segment.text),
{
    let all = segments.push(segment);
    assert(all.drop_last() =~= segments);
    assert(prompt::widths_of(all).drop_last() =~= prompt::widths_of(segments));
    assert(prompt::widths_of(Seq::<Segment>::empty()) =~= Seq::<int>::empty());
}

/// A search prompt is sent to a terminal as its label in cyan, then what is
/// searched for and the closing quote in the default style.
pub proof fn law_search_prompt_rendering(label: Seq<char>, query: Seq<char>)
    ensures
        prompt::rendering_of(prompt::search_segments(label, query)) == seq![
            '\u{1b}',
            '[',
            '3',
            '6',
            'm',
        ] + label + seq!['\u{1b}', '[', '0', 'm'] + query + seq!['\'', ':', ' '],
{
    let cyan = Style { fg: Some(Color::Ansi(36)), ..Style::unstyled() };
    let first = Segment { text: label, style: Some(cyan) };
    let asked = Segment { text: query, style: None };
    let end = Segment { text: "': "@, style: None };
    let none = Seq::<Segment>::empty();
    let start = seq!['\u{1b}', '[', '3', '6', 'm'] + label + seq!['\u{1b}', '[', '0', 'm'];
    reveal_strlit("': ");
    assert("': "@ =~= seq!['\'', ':', ' ']);
    law_styled_segment(label, cyan);
    law_on_sequence(cyan);
    crate::readline::text_laws::law_decimal(3, 6);
    crate::readline::text_laws::law_decimal(0, 3);
    assert(text::decimal(36) =~= seq!['3', '6']);
    assert(codes_of(cyan) =~= seq!['3', '6', ';']);
    assert(codes_of(cyan).drop_last() =~= seq!['3', '6']);
    assert(first.rendered() =~= start);
    law_rows(none, first);
    assert(none.push(first) =~= seq![first]);
    assert(prompt::rendering_of(seq![first]) =~= start);
    law_rows(seq![first], asked);
    let two = prompt::with_segment(seq![first], asked);
    assert(prompt::rendering_of(two) =~= start + query);
    law_rows(two, end);
    assert(prompt::search_segments(label, query) =~= two.push(end));
}

/// The last of some lines is the one that was added last; of none it is empty.
pub proof fn law_last_of(lines: Seq<Seq<char>>, line: Seq<char>)
    ensures
        prompt::last_of(lines.push(line)) == line,
        prompt::last_of(Seq::empty()).len() == 0,
{
}

/// Exactly the styles can be rendered whose background, if it is an ANSI colour, has
/// a code ten above it that one byte holds; exactly the rows of segments in such
/// styles.
pub proof fn law_renderable(style: Style, segments: Seq<Segment>)
    ensures
        style.renderable() == !(style.bg matches Some(Color::Ansi(n)) && n + 10 > 255),
        prompt::all_renderable(segments) == forall|i: int|
            0 <= i < segments.len() ==> ((#[trigger] segments[i]).style matches Some(s)
                ==> s.renderable()),
{
    if forall|i: int|
        0 <= i < segments.len() ==> ((#[trigger] segments[i]).style matches Some(s)
            ==> s.renderable()) {
        assert forall|i: int| 0 <= i < segments.len() implies (
        #[trigger] segments[i]).renderable() by {}
    }
    if prompt::all_renderable(segments) {
        assert forall|i: int| 0 <= i < segments.len() implies ((
        #[trigger] segments[i]).style matches Some(s) ==> s.renderable()) by {
            assert(segments[i].renderable());
        }
    }
}

} // verus!
