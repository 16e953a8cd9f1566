//! What the text helpers do, told from how a text is put together.

use crate::readline::text;
use vstd::prelude::*;

verus! {

// ---------------------------------------------------------------------
// Trimming
// ---------------------------------------------------------------------

/// Trimming drops the whitespace around a text that itself begins and ends with
/// other characters, and nothing else; trimming the end leaves what stands
/// before that text.
pub proof fn law_trim(lead: Seq<char>, core: Seq<char>, trail: Seq<char>)
    requires
        forall|i: int| 0 <= i < lead.len() ==> text::white_space(#[trigger] lead[i]),
        forall|i: int| 0 <= i < trail.len() ==> text::white_space(#[trigger] trail[i]),
        core.len() > 0,
        !text::white_space(core.first()),
        !text::white_space(core.last()),
    ensures
        text::trim(lead + core + trail) == core,
        text::trim_start(lead + core + trail) == core + trail,
        text::trim_end(lead + core + trail) == lead + core,
{
    lemma_trim_start(lead, core + trail);
    assert(lead + core + trail =~= lead + (core + trail));
    lemma_trim_end(core, trail);
    lemma_trim_end(lead + core, trail);
}

/// Nothing is left of whitespace.
pub proof fn law_trim_blank(s: Seq<char>)
    requires
        forall|i: int| 0 <= i < s.len() ==> text::white_space(#[trigger] s[i]),
    ensures
        text::trim(s).len() == 0,
        text::trim_start(s).len() == 0,
        text::trim_end(s).len() == 0,
{
    let none = Seq::<char>::empty();
    lemma_trim_start(s, none);
    lemma_trim_end(none, s);
    assert(s + none =~= s);
    assert(none + s =~= s);
}

/// Leading whitespace is dropped up to a text that does not begin with it.
proof fn lemma_trim_start(lead: Seq<char>, rest: Seq<char>)
    requires
        forall|i: int| 0 <= i < lead.len() ==> text::white_space(#[trigger] lead[i]),
        rest.len() > 0 ==> !text::white_space(rest.first()),
    ensures
        text::trim_start(lead + rest) == rest,
    decreases lead.len(),
{
    if lead.len() == 0 {
        assert(lead + rest =~= rest);
    } else {
        assert(text::white_space(lead[0]));
        assert forall|i: int| 0 <= i < lead.drop_first().len() implies text::white_space(
            #[trigger] lead.drop_first()[i],
        ) by {
            assert(lead.drop_first()[i] == lead[i + 1]);
        }
        assert((lead + rest).drop_first() =~= lead.drop_first() + rest);
        lemma_trim_start(lead.drop_first(), rest);
    }
}

/// Trailing whitespace is dropped down to a text that does not end in it.
proof fn lemma_trim_end(rest: Seq<char>, trail: Seq<char>)
    requires
        forall|i: int| 0 <= i < trail.len() ==> text::white_space(#[trigger] trail[i]),
        rest.len() > 0 ==> !text::white_space(rest.last()),
    ensures
        text::trim_end(rest + trail) == rest,
    decreases trail.len(),
{
    if trail.len() == 0 {
        assert(rest + trail =~= rest);
    } else {
        assert(text::white_space(trail[trail.len() - 1]));
        assert forall|i: int| 0 <= i < trail.drop_last().len() implies text::white_space(
            #[trigger] trail.drop_last()[i],
        ) by {
            assert(trail.drop_last()[i] == trail[i]);
        }
        assert((rest + trail).drop_last() =~= rest + trail.drop_last());
        lemma_trim_end(rest, trail.drop_last());
    }
}

// ---------------------------------------------------------------------
// Substrings
// ---------------------------------------------------------------------

/// A text contains another one exactly where it can be cut into something before
/// it, the other text, and something behind it.
pub proof fn law_occurs_in(whole: Seq<char>, part: Seq<char>)
    ensures
        text::occurs_in(whole, part) <==> exists|a: Seq<char>, b: Seq<char>|
            whole == #[trigger] (a + part + b),
{
    if text::occurs_in(whole, part) {
        let at = choose|at: int| #[trigger] text::occurs_at(whole, part, at);
        let a = whole.take(at);
        let b = whole.skip(at + part.len());
        assert(whole =~= a + part + b) by {
            assert(whole.subrange(at, at + part.len()) =~= part);
            assert forall|i: int| 0 <= i < whole.len() implies whole[i] == (a + part + b)[i] by {
                if at <= i < at + part.len() {
                    assert(part[i - at] == whole.subrange(at, at + part.len())[i - at]);
                }
            }
        }
    }
    if exists|a: Seq<char>, b: Seq<char>| whole == #[trigger] (a + part + b) {
        let (a, b) = choose|a: Seq<char>, b: Seq<char>| whole == #[trigger] (a + part + b);
        let at = a.len() as int;
        assert(whole.subrange(at, at + part.len()) =~= part);
        assert(text::occurs_at(whole, part, at));
    }
}

// ---------------------------------------------------------------------
// Lines
// ---------------------------------------------------------------------

/// What stands before the first line feed is the first line, without a carriage
/// return that stands right before the line feed; the lines of the rest follow.
/// Without a line feed a text is one line, unless it is empty.
pub proof fn law_lines(line: Seq<char>, rest: Seq<char>)
    requires
        !line.contains('\n'),
    ensures
        text::lines_of(Seq::<char>::empty()) == Seq::<Seq<char>>::empty(),
        line.len() > 0 ==> text::lines_of(line) == seq![line],
        line.len() == 0 || line.last() != '\r' ==> text::lines_of(line + seq!['\n'] + rest)
            == seq![line] + text::lines_of(rest),
        text::lines_of(line + seq!['\r', '\n'] + rest) == seq![line] + text::lines_of(rest),
{
    if line.len() > 0 {
        lemma_first_feed(line, Seq::empty());
        assert(line + Seq::<char>::empty() =~= line);
    }
    lemma_first_line(line, rest);
    let returned = line.push('\r');
    assert forall|i: int| 0 <= i < returned.len() implies returned[i] != '\n' by {
        if i < line.len() {
            assert(line.contains(line[i]));
        }
    }
    lemma_first_line(returned, rest);
    assert(returned + seq!['\n'] + rest =~= line + seq!['\r', '\n'] + rest);
    assert(returned.drop_last() =~= line);
}

/// The first line feed of a text stands behind what holds none.
proof fn lemma_first_feed(line: Seq<char>, rest: Seq<char>)
    requires
        !line.contains('\n'),
        rest.len() > 0 ==> rest[0] == '\n',
    ensures
        text::line_feed_at(line + rest) == line.len(),
{
    let s = line + rest;
    assert forall|i: int| 0 <= i < line.len() implies s[i] != '\n' by {
        assert(line.contains(line[i]));
    }
    text::lemma_line_feed_unique(s, line.len() as int);
}

/// One line and what follows it.
proof fn lemma_first_line(line: Seq<char>, rest: Seq<char>)
    requires
        !line.contains('\n'),
    ensures
        text::lines_of(line + seq!['\n'] + rest) == seq![text::without_carriage_return(line)]
            + text::lines_of(rest),
{
    let s = line + seq!['\n'] + rest;
    lemma_first_feed(line, seq!['\n'] + rest);
    assert(s =~= line + (seq!['\n'] + rest));
    assert(s.take(line.len() as int) =~= line);
    assert(s.skip(line.len() as int + 1) =~= rest);
}

/// The last line of a text is what stands behind its last line feed, or all of it
/// where it has none.
pub proof fn law_last_line(head: Seq<char>, tail: Seq<char>)
    requires
        head.len() == 0 || head.last() == '\n',
        !tail.contains('\n'),
    ensures
        text::last_line(head + tail) == tail,
    decreases tail.len(),
{
    if tail.len() == 0 {
        assert(head + tail =~= head);
    } else {
        let s = head + tail;
        assert(tail.contains(tail[tail.len() - 1]));
        assert forall|i: int| 0 <= i < tail.drop_last().len() implies tail.drop_last()[i]
            != '\n' by {
            assert(tail.contains(tail[i]));
        }
        assert(s.drop_last() =~= head + tail.drop_last());
        law_last_line(head, tail.drop_last());
        assert(tail.drop_last().push(tail.last()) =~= tail);
    }
}

// ---------------------------------------------------------------------
// Numerals
// ---------------------------------------------------------------------

/// A number below ten is written with one digit; ten times a number and a digit
/// more is written as the number with the digit behind it.
pub proof fn law_decimal(n: nat, d: nat)
    requires
        d < 10,
    ensures
        text::decimal(d) == seq![(48 + d) as char],
        n > 0 ==> text::decimal(10 * n + d) == text::decimal(n).push((48 + d) as char),
{
    if n > 0 {
        assert((10 * n + d) / 10 == n);
        assert((10 * n + d) % 10 == d);
    }
}

/// One digit reads as its value. A digit behind a number makes it ten times as
/// large and adds its value, as long as 64 bits hold that; a text that is too
/// large for them, or is no number, does not become one by a digit behind it.
pub proof fn law_parsed_number(s: Seq<char>, d: nat)
    requires
        d < 10,
        s.len() > 0,
        forall|i: int| 0 <= i < s.len() ==> '0' <= #[trigger] s[i] <= '9',
    ensures
        text::parsed_number(seq![(48 + d) as char]) == Some(d as u64),
        text::parsed_number(s) is Some && 10 * text::parsed_number(s)->0 + d <= u64::MAX
            ==> text::parsed_number(s.push((48 + d) as char)) == Some(
            (10 * text::parsed_number(s)->0 + d) as u64,
        ),
        text::parsed_number(s) is None || 10 * text::parsed_number(s)->0 + d > u64::MAX
            ==> text::parsed_number(s.push((48 + d) as char)) is None,
        text::parsed_number(seq!['+'] + s) == text::parsed_number(s),
{
    let c = (48 + d) as char;
    let one = seq![c];
    let none = Seq::<char>::empty();
    assert('0' <= c <= '9');
    assert(text::digit_value(c) == d);
    assert(one.drop_last() =~= none);
    assert(text::numeral_value(none) == 0);
    assert(text::numeral_value(one) == d);
    assert(text::all_digits(one));
    let t = s.push(c);
    assert(t.drop_last() =~= s);
    assert(s[0] != '+');
    assert(t[0] == s[0]);
    assert forall|i: int| 0 <= i < t.len() implies text::is_digit(#[trigger] t[i]) by {
        if i < s.len() {
            assert(t[i] == s[i]);
        }
    }
    assert(text::all_digits(s));
    let p = seq!['+'] + s;
    assert(p.skip(1) =~= s);
}

/// A text that is empty, or holds anything but digits behind an optional `+`, is
/// no number.
pub proof fn law_not_a_number(s: Seq<char>, i: int)
    requires
        0 <= i < s.len(),
        !('0' <= s[i] <= '9'),
        i > 0 || s[i] != '+',
    ensures
        text::parsed_number(s) is None,
        text::parsed_number(Seq::<char>::empty()) is None,
        text::parsed_number(seq!['+']) is None,
{
    if s[0] == '+' {
        assert(s.skip(1)[i - 1] == s[i]);
        assert(!text::is_digit(s.skip(1)[i - 1]));
    } else {
        assert(!text::is_digit(s[i]));
    }
    assert(seq!['+'].skip(1).len() == 0);
}

} // verus!
