//! Colours and text attributes, and the terminal escape sequences that switch
//! them on and off.

use crate::readline::text;
use vstd::prelude::*;
use vstd::string::*;

verus! {

// ---------------------------------------------------------------------
// Colours
// ---------------------------------------------------------------------

/// A terminal foreground or background colour.
#[derive(Debug, Clone, Copy, PartialEq, Eq, Structural)]
pub enum Color {
    /// Standard ANSI colour by its foreground code (30 to 37, bright 90 to 97).
    Ansi(u8),
    /// Index into the palette of 256 colours.
    Palette(u8),
    /// 24-bit colour: red, green, blue.
    Rgb(u8, u8, u8),
    /// The terminal's default colour.
    Default,
}

impl Color {
    /// The parameters that select this colour for the foreground.
    pub open spec fn fg_parameters(self) -> Seq<char> {
        match self {
            Color::Ansi(n) => text::decimal(n as nat),
            Color::Palette(n) => "38;5;"@ + text::decimal(n as nat),
            Color::Rgb(r, g, b) => "38;2;"@ + components(r, g, b),
            Color::Default => "39"@,
        }
    }

    /// The parameters that select this colour for the background.
    pub open spec fn bg_parameters(self) -> Seq<char> {
        match self {
            Color::Ansi(n) => text::decimal((n + 10) as nat),
            Color::Palette(n) => "48;5;"@ + text::decimal(n as nat),
            Color::Rgb(r, g, b) => "48;2;"@ + components(r, g, b),
            Color::Default => "49"@,
        }
    }

    /// `true` when the colour has a background code: that of an ANSI colour is
    /// its foreground code and ten, and is at most 255.
    pub open spec fn has_background(self) -> bool {
        self matches Color::Ansi(n) ==> n <= 245
    }

    /// ANSI black.
    pub fn black() -> (r: Color)
        ensures
            r == Color::Ansi(30),
    {
        Color::Ansi(30)
    }

    /// ANSI red.
    pub fn red() -> (r: Color)
        ensures
            r == Color::Ansi(31),
    {
        Color::Ansi(31)
    }

    /// ANSI green.
    pub fn green() -> (r: Color)
        ensures
            r == Color::Ansi(32),
    {
        Color::Ansi(32)
    }

    /// ANSI yellow.
    pub fn yellow() -> (r: Color)
        ensures
            r == Color::Ansi(33),
    {
        Color::Ansi(33)
    }

    /// ANSI blue.
    pub fn blue() -> (r: Color)
        ensures
            r == Color::Ansi(34),
    {
        Color::Ansi(34)
    }

    /// ANSI magenta.
    pub fn magenta() -> (r: Color)
        ensures
            r == Color::Ansi(35),
    {
        Color::Ansi(35)
    }

    /// ANSI cyan.
    pub fn cyan() -> (r: Color)
        ensures
            r == Color::Ansi(36),
    {
        Color::Ansi(36)
    }

    /// ANSI white.
    pub fn white() -> (r: Color)
        ensures
            r == Color::Ansi(37),
    {
        Color::Ansi(37)
    }

    /// ANSI bright black.
    pub fn bright_black() -> (r: Color)
        ensures
            r == Color::Ansi(90),
    {
        Color::Ansi(90)
    }

    /// ANSI bright red.
    pub fn bright_red() -> (r: Color)
        ensures
            r == Color::Ansi(91),
    {
        Color::Ansi(91)
    }

    /// ANSI bright green.
    pub fn bright_green() -> (r: Color)
        ensures
            r == Color::Ansi(92),
    {
        Color::Ansi(92)
    }

    /// ANSI bright yellow.
    pub fn bright_yellow() -> (r: Color)
        ensures
            r == Color::Ansi(93),
    {
        Color::Ansi(93)
    }

    /// ANSI bright blue.
    pub fn bright_blue() -> (r: Color)
        ensures
            r == Color::Ansi(94),
    {
        Color::Ansi(94)
    }

    /// ANSI bright magenta.
    pub fn bright_magenta() -> (r: Color)
        ensures
            r == Color::Ansi(95),
    {
        Color::Ansi(95)
    }

    /// ANSI bright cyan.
    pub fn bright_cyan() -> (r: Color)
        ensures
            r == Color::Ansi(96),
    {
        Color::Ansi(96)
    }

    /// ANSI bright white.
    pub fn bright_white() -> (r: Color)
        ensures
            r == Color::Ansi(97),
    {
        Color::Ansi(97)
    }

    /// The parameters inside `\x1b[...m` that select this foreground colour.
    pub fn fg_code(&self) -> (r: String)
        ensures
            r@ == self.fg_parameters(),
    {
        let mut out = String::new();
        match self {
            Color::Ansi(n) => {
                text::push_decimal(&mut out, *n as u64);
            },
            Color::Palette(n) => {
                out.append("38;5;");
                text::push_decimal(&mut out, *n as u64);
            },
            Color::Rgb(r, g, b) => {
                out.append("38;2;");
                push_components(&mut out, *r, *g, *b);
            },
            Color::Default => {
                out.append("39");
            },
        }
        assert(out@ =~= self.fg_parameters());
        out
    }

    /// The parameters inside `\x1b[...m` that select this background colour.
    pub fn bg_code(&self) -> (r: String)
        requires
            self.has_background(),
        ensures
            r@ == self.bg_parameters(),
    {
        let mut out = String::new();
        match self {
            Color::Ansi(n) => {
                text::push_decimal(&mut out, (*n + 10) as u64);
            },
            Color::Palette(n) => {
                out.append("48;5;");
                text::push_decimal(&mut out, *n as u64);
            },
            Color::Rgb(r, g, b) => {
                out.append("48;2;");
                push_components(&mut out, *r, *g, *b);
            },
            Color::Default => {
                out.append("49");
            },
        }
        assert(out@ =~= self.bg_parameters());
        out
    }
}

/// Three colour components, parted by semicolons.
pub open spec fn components(r: u8, g: u8, b: u8) -> Seq<char> {
    text::decimal(r as nat) + seq![';'] + text::decimal(g as nat) + seq![';'] + text::decimal(
        b as nat,
    )
}

/// Appends three colour components, parted by semicolons.
fn push_components(out: &mut String, r: u8, g: u8, b: u8)
    ensures
        final(out)@ == old(out)@ + components(r, g, b),
{
    text::push_decimal(out, r as u64);
    out.push(';');
    text::push_decimal(out, g as u64);
    out.push(';');
    text::push_decimal(out, b as u64);
    assert(out@ =~= old(out)@ + components(r, g, b));
}

// ---------------------------------------------------------------------
// Styles
// ---------------------------------------------------------------------

/// Text attributes and colours.
#[derive(Debug, PartialEq, Eq)]
pub struct Style {
    pub fg: Option<Color>,
    pub bg: Option<Color>,
    pub bold: bool,
    pub dim: bool,
    pub italic: bool,
    pub underline: bool,
    pub blink: bool,
    pub reverse: bool,
}

impl Clone for Style {
    fn clone(&self) -> (r: Self)
        ensures
            r == *self,
    {
        Style {
            fg: self.fg,
            bg: self.bg,
            bold: self.bold,
            dim: self.dim,
            italic: self.italic,
            underline: self.underline,
            blink: self.blink,
            reverse: self.reverse,
        }
    }
}

impl Default for Style {
    fn default() -> (r: Self)
        ensures
            r == Style::unstyled(),
    {
        Style {
            fg: None,
            bg: None,
            bold: false,
            dim: false,
            italic: false,
            underline: false,
            blink: false,
            reverse: false,
        }
    }
}

/// The parameter of an attribute, where it is set.
pub open spec fn attribute(set: bool, parameter: char) -> Seq<Seq<char>> {
    if set {
        seq![seq![parameter]]
    } else {
        Seq::empty()
    }
}

/// The given parameters, parted by semicolons.
pub open spec fn joined(parameters: Seq<Seq<char>>) -> Seq<char>
    decreases parameters.len(),
{
    if parameters.len() == 0 {
        Seq::empty()
    } else if parameters.len() == 1 {
        parameters[0]
    } else {
        joined(parameters.drop_last()) + seq![';'] + parameters.last()
    }
}

impl Style {
    /// The style without any attribute.
    pub open spec fn unstyled() -> Style {
        Style {
            fg: None,
            bg: None,
            bold: false,
            dim: false,
            italic: false,
            underline: false,
            blink: false,
            reverse: false,
        }
    }

    /// The parameters of this style's attributes.
    pub open spec fn attributes(self) -> Seq<Seq<char>> {
        attribute(self.bold, '1') + attribute(self.dim, '2') + attribute(self.italic, '3')
            + attribute(self.underline, '4') + attribute(self.blink, '5') + attribute(
            self.reverse,
            '7',
        )
    }

    /// The parameters of this style: its attributes, the foreground colour, the
    /// background colour.
    pub open spec fn parameters(self) -> Seq<Seq<char>> {
        let with_fg = match self.fg {
            Some(color) => self.attributes().push(color.fg_parameters()),
            None => self.attributes(),
        };
        match self.bg {
            Some(color) => with_fg.push(color.bg_parameters()),
            None => with_fg,
        }
    }

    /// What switches this style on: nothing for the style without attributes.
    pub open spec fn on_sequence(self) -> Seq<char> {
        if self == Style::unstyled() {
            Seq::empty()
        } else {
            seq!['\u{1b}', '['] + joined(self.parameters()) + seq!['m']
        }
    }

    /// What switches this style off: nothing for the style without attributes.
    pub open spec fn off_sequence(self) -> Seq<char> {
        if self == Style::unstyled() {
            Seq::empty()
        } else {
            seq!['\u{1b}', '[', '0', 'm']
        }
    }

    /// `true` when the style's background colour, if any, has a code.
    pub open spec fn renderable(self) -> bool {
        self.bg matches Some(color) ==> color.has_background()
    }

    /// The style without any attribute.
    pub fn plain() -> (r: Self)
        ensures
            r == Style::unstyled(),
    {
        Style::default()
    }

    /// Bold text.
    pub fn bold() -> (r: Self)
        ensures
            r == (Style { bold: true, ..Style::unstyled() }),
    {
        let mut style: Style = Style::default();
        style.bold = true;
        style
    }

    /// Text in the given colour.
    pub fn fg(color: Color) -> (r: Self)
        ensures
            r == (Style { fg: Some(color), ..Style::unstyled() }),
    {
        let mut style: Style = Style::default();
        style.fg = Some(color);
        style
    }

    /// Bold text in the given colour.
    pub fn bold_fg(color: Color) -> (r: Self)
        ensures
            r == (Style { bold: true, fg: Some(color), ..Style::unstyled() }),
    {
        let mut style: Style = Style::default();
        style.bold = true;
        style.fg = Some(color);
        style
    }

    /// `true` when no attribute is set.
    pub fn is_plain(&self) -> (r: bool)
        ensures
            r == (*self == Style::unstyled()),
    {
        self.fg.is_none() && self.bg.is_none() && !self.bold && !self.dim && !self.italic
            && !self.underline && !self.blink && !self.reverse
    }

    /// `true` when the style's background colour, if any, has a code.
    pub fn can_render(&self) -> (r: bool)
        ensures
            r == self.renderable(),
    {
        match self.bg {
            Some(Color::Ansi(n)) => n <= 245,
            _ => true,
        }
    }

    /// The parameters of this style's attributes.
    fn attribute_codes(&self) -> (r: Vec<String>)
        ensures
            text::views(r@) == self.attributes(),
    {
        let mut codes: Vec<String> = Vec::new();
        assert(text::views(codes@) + attribute(self.bold, '1') =~= attribute(self.bold, '1'));
        push_attribute(&mut codes, self.bold, '1');
        push_attribute(&mut codes, self.dim, '2');
        push_attribute(&mut codes, self.italic, '3');
        push_attribute(&mut codes, self.underline, '4');
        push_attribute(&mut codes, self.blink, '5');
        push_attribute(&mut codes, self.reverse, '7');
        codes
    }

    /// The `\x1b[...m` sequence that switches this style on, or nothing for the
    /// style without attributes.
    pub fn ansi_on(&self) -> (r: String)
        requires
            self.renderable(),
        ensures
            r@ == self.on_sequence(),
    {
        if self.is_plain() {
            return String::new();
        }
        let mut codes: Vec<String> = self.attribute_codes();
        match &self.fg {
            Some(color) => {
                push_code(&mut codes, color.fg_code());
            },
            None => {},
        }
        match &self.bg {
            Some(color) => {
                push_code(&mut codes, color.bg_code());
            },
            None => {},
        }
        assert(text::views(codes@) == self.parameters());
        let mut out = String::new();
        out.push('\u{1b}');
        out.push('[');
        push_joined(&mut out, &codes);
        out.push('m');
        assert(out@ =~= self.on_sequence());
        out
    }

    /// The sequence `\x1b[0m` that resets every attribute, or nothing for the
    /// style without attributes.
    pub fn ansi_off(&self) -> (r: String)
        ensures
            r@ == self.off_sequence(),
    {
        if self.is_plain() {
            String::new()
        } else {
            proof {
                reveal_strlit("\u{1b}[0m");
                assert("\u{1b}[0m"@ =~= seq!['\u{1b}', '[', '0', 'm']);
            }
            "\u{1b}[0m".to_string()
        }
    }
}

/// Adds the parameter of an attribute, where it is set.
fn push_attribute(codes: &mut Vec<String>, set: bool, parameter: char)
    ensures
        text::views(final(codes)@) == text::views(old(codes)@) + attribute(set, parameter),
{
    if set {
        let mut code = String::new();
        code.push(parameter);
        assert(code@ =~= seq![parameter]);
        codes.push(code);
    }
    assert(text::views(codes@) =~= text::views(old(codes)@) + attribute(set, parameter));
}

/// Adds one parameter.
fn push_code(codes: &mut Vec<String>, code: String)
    ensures
        text::views(final(codes)@) == text::views(old(codes)@).push(code@),
{
    codes.push(code);
    assert(text::views(codes@) =~= text::views(old(codes)@).push(code@));
}

/// Appends the given parameters, parted by semicolons.
fn push_joined(out: &mut String, codes: &Vec<String>)
    ensures
        final(out)@ == old(out)@ + joined(text::views(codes@)),
{
    let ghost all = text::views(codes@);
    let mut i: usize = 0;
    while i < codes.len()
        invariant
            i <= codes@.len(),
            all == text::views(codes@),
            out@ == old(out)@ + joined(all.take(i as int)),
        decreases codes@.len() - i,
    {
        let ghost before = joined(all.take(i as int));
        if i > 0 {
            out.push(';');
        }
        out.append(codes[i].as_str());
        proof {
            assert(all.take(i + 1).drop_last() =~= all.take(i as int));
            assert(all.take(i + 1).last() == codes@[i as int]@);
            assert(out@ =~= old(out)@ + joined(all.take(i + 1)));
        }
        i = i + 1;
    }
    assert(all.take(i as int) =~= all);
}

} // verus!
