//! Structured prompts: styled segments, their display width, and their rendering
//! for a terminal.

use crate::readline::ansi;
use crate::readline::cluster;
use crate::readline::text;
use crate::readline::width;
use vstd::prelude::*;
use vstd::string::*;

pub use crate::readline::ansi::{
    last_line_display_width, strip_ansi_and_rl_markers, visible_display_width,
};
pub use crate::readline::style::{Color, Style};

verus! {

// ---------------------------------------------------------------------
// Segments
// ---------------------------------------------------------------------

/// One styled piece of a prompt.
#[derive(Debug, PartialEq, Eq)]
pub struct PromptSegment {
    /// The visible text. Colours are given by `style`, not by escape sequences.
    pub text: String,
    /// The style, or `None` for the terminal's default.
    pub style: Option<Style>,
}

/// What a [`PromptSegment`] holds.
pub struct Segment {
    pub text: Seq<char>,
    pub style: Option<Style>,
}

impl Segment {
    /// A segment in the given style; the style without attributes counts as none.
    pub open spec fn in_style(text: Seq<char>, style: Style) -> Segment {
        Segment {
            text,
            style: if style == Style::unstyled() {
                None
            } else {
                Some(style)
            },
        }
    }

    /// The segment as it is sent to a terminal.
    pub open spec fn rendered(self) -> Seq<char> {
        match self.style {
            None => self.text,
            Some(style) => style.on_sequence() + self.text + style.off_sequence(),
        }
    }

    /// The segment with its escape sequences between `\x01` and `\x02`.
    pub open spec fn rendered_marked(self) -> Seq<char> {
        match self.style {
            None => self.text,
            Some(style) => seq!['\u{1}'] + style.on_sequence() + seq!['\u{2}'] + self.text + seq![
                '\u{1}',
            ] + style.off_sequence() + seq!['\u{2}'],
        }
    }

    /// `true` when the style of the segment has an escape sequence.
    pub open spec fn renderable(self) -> bool {
        self.style matches Some(style) ==> style.renderable()
    }
}

impl View for PromptSegment {
    type V = Segment;

    open spec fn view(&self) -> Segment {
        Segment { text: self.text@, style: self.style }
    }
}

impl Clone for PromptSegment {
    fn clone(&self) -> (r: Self)
        ensures
            r@ == self@,
    {
        PromptSegment {
            text: self.text.clone(),
            style: match &self.style {
                Some(style) => Some(style.clone()),
                None => None,
            },
        }
    }
}

impl PromptSegment {
    /// A segment in the terminal's default style.
    pub fn plain<T: Into<String>>(text: T) -> (r: Self)
        ensures
            call_ensures(T::into, (text,), r.text),
            r.style is None,
    {
        PromptSegment { text: text.into(), style: None }
    }

    /// A segment in the given style; the style without attributes counts as none.
    pub fn styled<T: Into<String>>(text: T, style: Style) -> (r: Self)
        ensures
            call_ensures(T::into, (text,), r.text),
            r@ == Segment::in_style(r.text@, style),
    {
        let owned: String = text.into();
        PromptSegment {
            text: owned,
            style: if style.is_plain() {
                None
            } else {
                Some(style)
            },
        }
    }

    /// How many terminal columns the text takes.
    pub fn display_width(&self) -> (r: usize)
        ensures
            r == width::column_width(self@.text),
            r <= 3 * self@.text.len(),
            cluster::plain(self@.text) ==> r == self@.text.len(),
    {
        width::width_of(self.text.as_str())
    }

    /// `true` when the style of the segment has an escape sequence.
    pub fn can_render(&self) -> (r: bool)
        ensures
            r == self@.renderable(),
    {
        match &self.style {
            Some(style) => style.can_render(),
            None => true,
        }
    }

    /// The segment as it is sent to a terminal, with escape sequences.
    pub fn render(&self) -> (r: String)
        requires
            self@.renderable(),
        ensures
            r@ == self@.rendered(),
    {
        let mut out = String::new();
        match &self.style {
            None => {
                out.append(self.text.as_str());
            },
            Some(style) => {
                out.append(style.ansi_on().as_str());
                out.append(self.text.as_str());
                out.append(style.ansi_off().as_str());
            },
        }
        assert(out@ =~= self@.rendered());
        out
    }

    /// The segment with its escape sequences between the markers `\x01` and
    /// `\x02` for what is not printed.
    pub fn render_rl_escaped(&self) -> (r: String)
        requires
            self@.renderable(),
        ensures
            r@ == self@.rendered_marked(),
    {
        let mut out = String::new();
        match &self.style {
            None => {
                out.append(self.text.as_str());
            },
            Some(style) => {
                out.push('\u{1}');
                out.append(style.ansi_on().as_str());
                out.push('\u{2}');
                out.append(self.text.as_str());
                out.push('\u{1}');
                out.append(style.ansi_off().as_str());
                out.push('\u{2}');
            },
        }
        assert(out@ =~= self@.rendered_marked());
        out
    }
}

// ---------------------------------------------------------------------
// Sequences of segments
// ---------------------------------------------------------------------

/// What a sequence of prompt segments holds.
pub open spec fn segments_of(parts: Seq<PromptSegment>) -> Seq<Segment> {
    Seq::new(parts.len(), |i: int| parts[i]@)
}

/// `true` when no segment is empty.
pub open spec fn none_empty(segments: Seq<Segment>) -> bool {
    forall|i: int| 0 <= i < segments.len() ==> (#[trigger] segments[i]).text.len() > 0
}

/// The segments with one more, unless that is empty.
pub open spec fn with_segment(segments: Seq<Segment>, segment: Segment) -> Seq<Segment> {
    if segment.text.len() == 0 {
        segments
    } else {
        segments.push(segment)
    }
}

/// The text of all segments.
pub open spec fn text_of(segments: Seq<Segment>) -> Seq<char>
    decreases segments.len(),
{
    if segments.len() == 0 {
        Seq::empty()
    } else {
        text_of(segments.drop_last()) + segments.last().text
    }
}

/// All segments as they are sent to a terminal.
pub open spec fn rendering_of(segments: Seq<Segment>) -> Seq<char>
    decreases segments.len(),
{
    if segments.len() == 0 {
        Seq::empty()
    } else {
        rendering_of(segments.drop_last()) + segments.last().rendered()
    }
}

/// All segments with their escape sequences between `\x01` and `\x02`.
pub open spec fn marked_rendering_of(segments: Seq<Segment>) -> Seq<char>
    decreases segments.len(),
{
    if segments.len() == 0 {
        Seq::empty()
    } else {
        marked_rendering_of(segments.drop_last()) + segments.last().rendered_marked()
    }
}

/// Rendering takes no bytes away.
proof fn lemma_rendering_longer(segments: Seq<Segment>)
    ensures
        cluster::byte_len(text_of(segments)) <= cluster::byte_len(rendering_of(segments)),
    decreases segments.len(),
{
    if segments.len() > 0 {
        let front = segments.drop_last();
        let last = segments.last();
        lemma_rendering_longer(front);
        cluster::lemma_encode_concat(text_of(front), last.text);
        cluster::lemma_encode_concat(rendering_of(front), last.rendered());
        if let Some(style) = last.style {
            cluster::lemma_encode_concat(style.on_sequence(), last.text);
            cluster::lemma_encode_concat(
                style.on_sequence() + last.text,
                style.off_sequence(),
            );
        }
    }
}

/// `true` when every segment can be rendered.
pub open spec fn all_renderable(segments: Seq<Segment>) -> bool {
    forall|i: int| 0 <= i < segments.len() ==> (#[trigger] segments[i]).renderable()
}

/// The widths of the segments, in terminal columns.
pub open spec fn widths_of(segments: Seq<Segment>) -> Seq<int> {
    Seq::new(segments.len(), |i: int| width::column_width(segments[i].text) as int)
}

/// The sum of some numbers.
pub open spec fn total(numbers: Seq<int>) -> int
    decreases numbers.len(),
{
    if numbers.len() == 0 {
        0
    } else {
        total(numbers.drop_last()) + numbers.last()
    }
}

/// What a sequence of machine numbers holds.
pub open spec fn numbers_of(values: Seq<usize>) -> Seq<int> {
    Seq::new(values.len(), |i: int| values[i] as int)
}

/// The sum of some widths.
pub fn total_width(widths: &Vec<usize>) -> (r: usize)
    requires
        total(numbers_of(widths@)) <= usize::MAX,
    ensures
        r == total(numbers_of(widths@)),
{
    let ghost all = numbers_of(widths@);
    let mut sum: usize = 0;
    let mut i: usize = 0;
    assert(all.take(0) =~= Seq::<int>::empty());
    while i < widths.len()
        invariant
            i <= widths@.len(),
            all == numbers_of(widths@),
            total(all) <= usize::MAX,
            sum == total(all.take(i as int)),
        decreases widths@.len() - i,
    {
        proof {
            assert(all.take(i + 1).drop_last() =~= all.take(i as int));
            lemma_total_grows(all, i + 1);
        }
        sum = sum + widths[i];
        i = i + 1;
    }
    assert(all.take(i as int) =~= all);
    sum
}

/// The sum of numbers that are not negative does not shrink when more are added.
proof fn lemma_total_grows(numbers: Seq<int>, n: int)
    requires
        0 <= n <= numbers.len(),
        forall|i: int| 0 <= i < numbers.len() ==> 0 <= #[trigger] numbers[i],
    ensures
        total(numbers.take(n)) <= total(numbers),
    decreases numbers.len() - n,
{
    if n < numbers.len() {
        lemma_total_grows(numbers, n + 1);
        assert(numbers.take(n + 1).drop_last() =~= numbers.take(n));
    } else {
        assert(numbers.take(n) =~= numbers);
    }
}

/// The parts of printable ASCII are printable ASCII.
proof fn lemma_plain_parts(a: Seq<char>, b: Seq<char>)
    requires
        cluster::plain(a + b),
    ensures
        cluster::plain(a),
        cluster::plain(b),
{
    assert forall|i: int| 0 <= i < a.len() implies ' ' <= #[trigger] a[i] <= '~' by {
        assert((a + b)[i] == a[i]);
    }
    assert forall|i: int| 0 <= i < b.len() implies ' ' <= #[trigger] b[i] <= '~' by {
        assert((a + b)[a.len() + i] == b[i]);
    }
}

/// The last of some lines: the empty line where there is none.
pub open spec fn last_of(lines: Seq<Seq<char>>) -> Seq<char> {
    if lines.len() == 0 {
        Seq::empty()
    } else {
        lines.last()
    }
}

// ---------------------------------------------------------------------
// Prompts
// ---------------------------------------------------------------------

/// A structured terminal prompt: a row of segments, none of them empty.
#[derive(Debug)]
pub struct Prompt {
    segments: Vec<PromptSegment>,
}

impl View for Prompt {
    type V = Seq<Segment>;

    closed spec fn view(&self) -> Seq<Segment> {
        segments_of(self.segments@)
    }
}

impl Clone for Prompt {
    fn clone(&self) -> (r: Self)
        ensures
            r@ == self@,
    {
        let r = Prompt { segments: self.segments.clone() };
        assert(r@ =~= self@);
        r
    }
}

impl Default for Prompt {
    fn default() -> (r: Self)
        ensures
            r@ == Seq::<Segment>::empty(),
    {
        let r = Prompt { segments: Vec::new() };
        assert(r@ =~= Seq::<Segment>::empty());
        r
    }
}

impl Prompt {
    // -----------------------------------------------------------------
    // Construction
    // -----------------------------------------------------------------

    /// A prompt without segments.
    pub fn new() -> (r: Self)
        ensures
            r@ == Seq::<Segment>::empty(),
    {
        Prompt::default()
    }

    /// A prompt in the terminal's default style.
    pub fn plain<T: Into<String>>(text: T) -> (r: Self)
        ensures
            none_empty(r@),
            exists|s: String| #[trigger]
                call_ensures(T::into, (text,), s) && r@ == with_segment(
                    Seq::empty(),
                    (Segment { text: s@, style: None }),
                ),
    {
        let mut r: Prompt = Prompt::new();
        let segment: PromptSegment = PromptSegment::plain(text);
        let ghost s = segment.text;
        r.push(segment);
        assert(call_ensures(T::into, (text,), s));
        r
    }

    /// A prompt with the visible characters of `raw`, in the terminal's default
    /// style. Escape sequences and the parts between `\x01` and `\x02` are
    /// dropped.
    pub fn from_raw(raw: &str) -> (r: Self)
        ensures
            none_empty(r@),
            r@ == with_segment(
                Seq::empty(),
                (Segment { text: ansi::visible(raw@), style: None }),
            ),
    {
        let mut r: Prompt = Prompt::new();
        let shown: String = strip_ansi_and_rl_markers(raw);
        r.push(PromptSegment::plain(shown));
        r
    }

    /// Parts a raw prompt at its last line feed: what stands up to and with it,
    /// or `None` where there is no line feed, and a prompt for the rest.
    pub fn expand(raw: &str) -> (r: (Option<String>, Self))
        ensures
            none_empty(r.1@),
            r.1@ == with_segment(
                Seq::empty(),
                (Segment { text: ansi::visible(text::last_line(raw@)), style: None }),
            ),
            r.0 is Some == raw@.contains('\n'),
            r.0 is Some ==> r.0->0@ == raw@.take(raw@.len() - text::last_line(raw@).len()),
    {
        let chars: Vec<char> = text::chars_of(raw);
        let tail: String = text::text_of_last_line(raw);
        let prompt: Prompt = Prompt::from_raw(tail.as_str());
        proof {
            text::lemma_last_line(raw@);
        }
        let mut n: usize = chars.len();
        while n > 0 && chars[n - 1] != '\n'
            invariant
                n <= chars@.len(),
                chars@ == raw@,
                forall|i: int| n <= i < raw@.len() ==> raw@[i] != '\n',
            decreases n,
        {
            n = n - 1;
        }
        let ghost rest = raw@.len() - text::last_line(raw@).len();
        if n == 0 {
            return (None, prompt);
        }
        proof {
            assert(raw@[n - 1] == '\n');
            if rest < n {
                assert(text::last_line(raw@)[n - 1 - rest] == raw@[n - 1]);
                assert(text::last_line(raw@).contains('\n'));
            }
            if rest > n {
                assert(raw@[rest - 1] == '\n');
            }
            assert(raw@.contains(raw@[n - 1]));
            assert(chars@.subrange(0, n as int) =~= raw@.take(rest));
        }
        (Some(text::string_of(&chars, 0, n)), prompt)
    }

    /// A builder for a prompt.
    pub fn builder() -> (r: PromptBuilder)
        ensures
            r@ == Seq::<Segment>::empty(),
    {
        PromptBuilder::new()
    }

    /// Adds a segment. Segments without text are dropped.
    pub fn push(&mut self, seg: PromptSegment)
        ensures
            final(self)@ == with_segment(old(self)@, seg@),
            none_empty(old(self)@) ==> none_empty(final(self)@),
    {
        if !seg.text.as_str().is_empty() {
            self.segments.push(seg);
        }
        assert(self@ =~= with_segment(old(self)@, seg@));
    }

    // -----------------------------------------------------------------
    // Reading a prompt
    // -----------------------------------------------------------------

    /// How many terminal columns the segments take together. Escape sequences
    /// take none.
    pub fn display_width(&self) -> (r: usize)
        requires
            3 * text_of(self@).len() <= usize::MAX,
        ensures
            r == total(widths_of(self@)),
            r <= 3 * text_of(self@).len(),
            cluster::plain(text_of(self@)) ==> r == text_of(self@).len(),
    {
        let mut widths: Vec<usize> = Vec::new();
        let mut i: usize = 0;
        assert(self@.take(0) =~= Seq::<Segment>::empty());
        assert(widths_of(self@.take(0)) =~= Seq::<int>::empty());
        while i < self.segments.len()
            invariant
                i <= self.segments@.len(),
                self@ == segments_of(self.segments@),
                numbers_of(widths@) == widths_of(self@.take(i as int)),
                total(widths_of(self@.take(i as int))) <= 3 * text_of(self@.take(i as int)).len(),
                cluster::plain(text_of(self@.take(i as int))) ==> total(
                    widths_of(self@.take(i as int)),
                ) == text_of(self@.take(i as int)).len(),
            decreases self.segments@.len() - i,
        {
            let w: usize = self.segments[i].display_width();
            proof {
                let some = self@.take(i + 1);
                assert(some.drop_last() =~= self@.take(i as int));
                assert(some.last() == self.segments@[i as int]@);
                assert(widths_of(some).drop_last() =~= widths_of(self@.take(i as int)));
                if cluster::plain(text_of(some)) {
                    lemma_plain_parts(text_of(some.drop_last()), some.last().text);
                }
                assert(widths_of(some) =~= widths_of(some.drop_last()).push(w as int));
                assert(numbers_of(widths@.push(w)) =~= numbers_of(widths@).push(w as int));
            }
            widths.push(w);
            i = i + 1;
        }
        assert(self@.take(i as int) =~= self@);
        total_width(&widths)
    }

    /// How many terminal columns the last line of the visible text takes.
    pub fn last_line_width(&self) -> (r: usize)
        ensures
            r == width::column_width(last_of(text::lines_of(text_of(self@)))),
            cluster::plain(last_of(text::lines_of(text_of(self@)))) ==> r == last_of(
                text::lines_of(text_of(self@)),
            ).len(),
    {
        let shown: String = self.visible_text();
        let lines: Vec<String> = text::split_lines(shown.as_str());
        let n: usize = lines.len();
        if n == 0 {
            proof {
                reveal_strlit("");
                assert(""@ =~= Seq::<char>::empty());
                assert(text::views(lines@).len() == 0);
            }
            width::width_of("")
        } else {
            assert(text::views(lines@).last() == lines@[n - 1]@);
            width::width_of(lines[n - 1].as_str())
        }
    }

    /// The text of the segments, without styling.
    pub fn visible_text(&self) -> (r: String)
        ensures
            r@ == text_of(self@),
    {
        let mut out = String::new();
        let mut i: usize = 0;
        assert(self@.take(0) =~= Seq::<Segment>::empty());
        while i < self.segments.len()
            invariant
                i <= self.segments@.len(),
                self@ == segments_of(self.segments@),
                out@ == text_of(self@.take(i as int)),
            decreases self.segments@.len() - i,
        {
            out.append(self.segments[i].text.as_str());
            assert(self@.take(i + 1).drop_last() =~= self@.take(i as int));
            i = i + 1;
        }
        assert(self@.take(i as int) =~= self@);
        out
    }

    /// `true` if the prompt has no segments.
    pub fn is_empty(&self) -> (r: bool)
        ensures
            r == (self@.len() == 0),
    {
        self.segments.len() == 0
    }

    /// The number of segments.
    pub fn segment_count(&self) -> (r: usize)
        ensures
            r == self@.len(),
    {
        self.segments.len()
    }

    /// The number of lines of the visible text.
    pub fn line_count(&self) -> (r: usize)
        ensures
            r == text::lines_of(text_of(self@)).len(),
    {
        let shown: String = self.visible_text();
        let lines: Vec<String> = text::split_lines(shown.as_str());
        assert(text::views(lines@).len() == lines@.len());
        lines.len()
    }

    /// How many bytes of the rendered prompt belong to escape sequences: those that
    /// are no bytes of the visible text.
    pub fn invisible_byte_count(&self) -> (r: usize)
        requires
            all_renderable(self@),
        ensures
            r == cluster::byte_len(rendering_of(self@)) - cluster::byte_len(text_of(self@)),
    {
        let rendered: String = self.render();
        let shown: String = self.visible_text();
        proof {
            lemma_rendering_longer(self@);
        }
        rendered.as_str().as_bytes().len() - shown.as_str().as_bytes().len()
    }

    // -----------------------------------------------------------------
    // Rendering
    // -----------------------------------------------------------------

    /// `true` when every segment can be rendered.
    pub fn can_render(&self) -> (r: bool)
        ensures
            r == all_renderable(self@),
    {
        let mut i: usize = 0;
        while i < self.segments.len()
            invariant
                i <= self.segments@.len(),
                self@ == segments_of(self.segments@),
                forall|j: int| 0 <= j < i ==> (#[trigger] self@[j]).renderable(),
            decreases self.segments@.len() - i,
        {
            assert(self@[i as int] == self.segments@[i as int]@);
            if !self.segments[i].can_render() {
                return false;
            }
            i = i + 1;
        }
        true
    }

    /// The prompt as it is sent to a terminal, with escape sequences.
    pub fn render(&self) -> (r: String)
        requires
            all_renderable(self@),
        ensures
            r@ == rendering_of(self@),
    {
        let mut out = String::new();
        let mut i: usize = 0;
        assert(self@.take(0) =~= Seq::<Segment>::empty());
        while i < self.segments.len()
            invariant
                i <= self.segments@.len(),
                self@ == segments_of(self.segments@),
                all_renderable(self@),
                out@ == rendering_of(self@.take(i as int)),
            decreases self.segments@.len() - i,
        {
            assert(self@[i as int] == self.segments@[i as int]@);
            out.append(self.segments[i].render().as_str());
            assert(self@.take(i + 1).drop_last() =~= self@.take(i as int));
            i = i + 1;
        }
        assert(self@.take(i as int) =~= self@);
        out
    }

    /// The prompt with its escape sequences between the markers `\x01` and
    /// `\x02` for what is not printed.
    pub fn render_rl_escaped(&self) -> (r: String)
        requires
            all_renderable(self@),
        ensures
            r@ == marked_rendering_of(self@),
    {
        let mut out = String::new();
        let mut i: usize = 0;
        assert(self@.take(0) =~= Seq::<Segment>::empty());
        while i < self.segments.len()
            invariant
                i <= self.segments@.len(),
                self@ == segments_of(self.segments@),
                all_renderable(self@),
                out@ == marked_rendering_of(self@.take(i as int)),
            decreases self.segments@.len() - i,
        {
            assert(self@[i as int] == self.segments@[i as int]@);
            out.append(self.segments[i].render_rl_escaped().as_str());
            assert(self@.take(i + 1).drop_last() =~= self@.take(i as int));
            i = i + 1;
        }
        assert(self@.take(i as int) =~= self@);
        out
    }

    /// The prompt as it is displayed: the same as `render`.
    pub fn to_string(&self) -> (r: String)
        requires
            all_renderable(self@),
        ensures
            r@ == rendering_of(self@),
    {
        self.render()
    }

    // -----------------------------------------------------------------
    // Prompts for searching and messages
    // -----------------------------------------------------------------

    /// A prompt for searching with the given label.
    fn for_search(label: &str, query: &str) -> (r: Self)
        requires
            label@.len() > 0,
        ensures
            none_empty(r@),
            r@ == search_segments(label@, query@),
    {
        let mut r: Prompt = Prompt::new();
        r.push(PromptSegment::styled(label, Style::fg(Color::cyan())));
        r.push(PromptSegment::plain(query));
        r.push(PromptSegment::plain("': "));
        assert("': "@.len() == 3) by {
            reveal_strlit("': ");
        }
        r
    }

    /// The prompt of an incremental search towards older commands:
    /// `(reverse-i-search)'<query>': `, with `failed` before the name where the
    /// search has failed.
    pub fn for_isearch(query: &str, failed: bool) -> (r: Self)
        ensures
            none_empty(r@),
            r@ == search_segments(
                if failed {
                    "(failed reverse-i-search)'"@
                } else {
                    "(reverse-i-search)'"@
                },
                query@,
            ),
    {
        proof {
            reveal_strlit("(failed reverse-i-search)'");
            reveal_strlit("(reverse-i-search)'");
        }
        if failed {
            Prompt::for_search("(failed reverse-i-search)'", query)
        } else {
            Prompt::for_search("(reverse-i-search)'", query)
        }
    }

    /// The prompt of an incremental search towards newer commands:
    /// `(i-search)'<query>': `, with `failed` before the name where the search
    /// has failed.
    pub fn for_forward_search(query: &str, failed: bool) -> (r: Self)
        ensures
            none_empty(r@),
            r@ == search_segments(
                if failed {
                    "(failed i-search)'"@
                } else {
                    "(i-search)'"@
                },
                query@,
            ),
    {
        proof {
            reveal_strlit("(failed i-search)'");
            reveal_strlit("(i-search)'");
        }
        if failed {
            Prompt::for_search("(failed i-search)'", query)
        } else {
            Prompt::for_search("(i-search)'", query)
        }
    }

    /// A prompt that shows a message in place of the usual prompt.
    pub fn message<T: Into<String>>(text: T) -> (r: Self)
        ensures
            none_empty(r@),
            exists|s: String| #[trigger]
                call_ensures(T::into, (text,), s) && r@ == with_segment(
                    Seq::empty(),
                    (Segment { text: s@, style: None }),
                ),
    {
        Prompt::plain(text)
    }
}

/// The segments of a prompt for searching: the label in cyan, what is searched
/// for, and the closing quote.
pub open spec fn search_segments(label: Seq<char>, query: Seq<char>) -> Seq<Segment> {
    let cyan = Style { fg: Some(Color::Ansi(36)), ..Style::unstyled() };
    with_segment(
        seq![Segment { text: label, style: Some(cyan) }],
        Segment { text: query, style: None },
    ).push(Segment { text: "': "@, style: None })
}

// ---------------------------------------------------------------------
// Saved prompts
// ---------------------------------------------------------------------

/// A prompt set aside while another is shown.
#[derive(Debug)]
pub struct PromptState {
    pub prompt: Option<Prompt>,
}

impl View for PromptState {
    type V = Option<Seq<Segment>>;

    open spec fn view(&self) -> Option<Seq<Segment>> {
        match self.prompt {
            Some(prompt) => Some(prompt@),
            None => None,
        }
    }
}

impl Clone for PromptState {
    fn clone(&self) -> (r: Self)
        ensures
            r@ == self@,
    {
        PromptState {
            prompt: match &self.prompt {
                Some(prompt) => Some(prompt.clone()),
                None => None,
            },
        }
    }
}

impl Default for PromptState {
    fn default() -> (r: Self)
        ensures
            r@ is None,
    {
        PromptState { prompt: None }
    }
}

impl PromptState {
    /// Nothing set aside.
    pub fn new() -> (r: Self)
        ensures
            r@ is None,
    {
        PromptState::default()
    }

    /// Sets `current` aside and returns a copy of it.
    pub fn save(&mut self, current: Prompt) -> (r: Prompt)
        ensures
            final(self)@ == Some(current@),
            r@ == current@,
    {
        let copy: Prompt = current.clone();
        self.prompt = Some(current);
        copy
    }

    /// Gives back the prompt that was set aside, or `None` if there is none.
    pub fn restore(&mut self) -> (r: Option<Prompt>)
        ensures
            final(self)@ is None,
            r is Some == old(self)@ is Some,
            r is Some ==> r->0@ == old(self)@->0,
    {
        self.prompt.take()
    }

    /// `true` if a prompt is set aside.
    pub fn is_saved(&self) -> (r: bool)
        ensures
            r == self@ is Some,
    {
        self.prompt.is_some()
    }
}

// ---------------------------------------------------------------------
// Building prompts
// ---------------------------------------------------------------------

/// Builds a prompt segment by segment.
#[derive(Debug)]
pub struct PromptBuilder {
    prompt: Prompt,
}

impl View for PromptBuilder {
    type V = Seq<Segment>;

    closed spec fn view(&self) -> Seq<Segment> {
        self.prompt@
    }
}

impl Default for PromptBuilder {
    fn default() -> (r: Self)
        ensures
            r@ == Seq::<Segment>::empty(),
    {
        PromptBuilder { prompt: Prompt::new() }
    }
}

impl PromptBuilder {
    /// A builder without segments.
    pub fn new() -> (r: Self)
        ensures
            r@ == Seq::<Segment>::empty(),
    {
        PromptBuilder::default()
    }

    /// Adds a segment.
    fn with(self, segment: PromptSegment) -> (r: Self)
        ensures
            r@ == with_segment(self@, segment@),
            none_empty(self@) ==> none_empty(r@),
    {
        let mut prompt: Prompt = self.prompt;
        prompt.push(segment);
        PromptBuilder { prompt }
    }

    /// Adds text in the terminal's default style.
    pub fn plain<T: Into<String>>(self, text: T) -> (r: Self)
        ensures
            none_empty(self@) ==> none_empty(r@),
            exists|s: String| #[trigger]
                call_ensures(T::into, (text,), s) && r@ == with_segment(
                    self@,
                    (Segment { text: s@, style: None }),
                ),
    {
        let segment: PromptSegment = PromptSegment::plain(text);
        let ghost s = segment.text;
        assert(call_ensures(T::into, (text,), s));
        self.with(segment)
    }

    /// Adds bold text.
    pub fn bold_text<T: Into<String>>(self, text: T) -> (r: Self)
        ensures
            none_empty(self@) ==> none_empty(r@),
            exists|s: String| #[trigger]
                call_ensures(T::into, (text,), s) && r@ == with_segment(
                    self@,
                    (Segment {
                        text: s@,
                        style: Some(Style { bold: true, ..Style::unstyled() }),
                    }),
                ),
    {
        self.styled(text, Style::bold())
    }

    /// Adds text in the given colour.
    pub fn fg_text<T: Into<String>>(self, text: T, color: Color) -> (r: Self)
        ensures
            none_empty(self@) ==> none_empty(r@),
            exists|s: String| #[trigger]
                call_ensures(T::into, (text,), s) && r@ == with_segment(
                    self@,
                    (Segment {
                        text: s@,
                        style: Some(Style { fg: Some(color), ..Style::unstyled() }),
                    }),
                ),
    {
        self.styled(text, Style::fg(color))
    }

    /// Adds bold text in the given colour.
    pub fn bold_fg<T: Into<String>>(self, text: T, color: Color) -> (r: Self)
        ensures
            none_empty(self@) ==> none_empty(r@),
            exists|s: String| #[trigger]
                call_ensures(T::into, (text,), s) && r@ == with_segment(
                    self@,
                    (Segment {
                        text: s@,
                        style: Some(Style { bold: true, fg: Some(color), ..Style::unstyled() }),
                    }),
                ),
    {
        self.styled(text, Style::bold_fg(color))
    }

    /// Adds text in the given style.
    pub fn styled<T: Into<String>>(self, text: T, style: Style) -> (r: Self)
        ensures
            none_empty(self@) ==> none_empty(r@),
            exists|s: String| #[trigger]
                call_ensures(T::into, (text,), s) && r@ == with_segment(
                    self@,
                    Segment::in_style(s@, style),
                ),
    {
        let segment: PromptSegment = PromptSegment::styled(text, style);
        let ghost s = segment.text;
        assert(call_ensures(T::into, (text,), s));
        self.with(segment)
    }

    /// The prompt with the segments that were added.
    pub fn build(self) -> (r: Prompt)
        ensures
            r@ == self@,
    {
        self.prompt
    }
}

} // verus!
