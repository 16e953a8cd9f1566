//! Telling the visible characters of a prompt from terminal control sequences.

use crate::readline::cluster;
use crate::readline::text;
use crate::readline::width;
use vstd::prelude::*;
use vstd::string::*;

verus! {

/// How many characters of `s` belong to a run of parameter and intermediate
/// characters at its start.
pub open spec fn parameter_run(s: Seq<char>) -> nat
    decreases s.len(),
{
    if s.len() > 0 && '\u{20}' <= s[0] <= '\u{3f}' {
        1 + parameter_run(s.skip(1))
    } else {
        0
    }
}

/// How many characters of `s` stand before the first `\x02`: all of them where
/// there is none.
pub open spec fn marked_run(s: Seq<char>) -> nat
    decreases s.len(),
{
    if s.len() == 0 || s[0] == '\u{2}' {
        0
    } else {
        1 + marked_run(s.skip(1))
    }
}

/// How many characters at the start of `s` are one control sequence: none where
/// `s` starts with a visible character.
///
/// - `\x01` starts a part that is not printed. It reaches to the next `\x02`, or
///   to the end of the text.
/// - `\x1b[` starts a sequence with parameters (`\x20` to `\x3f`) and one final
///   character (`\x40` to `\x7e`), if that is there.
/// - Any other `\x1b` forms a sequence with the character behind it.
pub open spec fn control_len(s: Seq<char>) -> nat {
    if s.len() == 0 {
        0
    } else if s[0] == '\u{1}' {
        let n = 1 + marked_run(s.skip(1));
        if n < s.len() {
            n + 1
        } else {
            s.len()
        }
    } else if s[0] == '\u{1b}' {
        if s.len() == 1 {
            1
        } else if s[1] == '[' {
            let n = 2 + parameter_run(s.skip(2));
            if n < s.len() && '\u{40}' <= s[n as int] <= '\u{7e}' {
                n + 1
            } else {
                n
            }
        } else {
            2
        }
    } else {
        0
    }
}

/// The visible characters of `s`: what is left without its control sequences.
pub open spec fn visible(s: Seq<char>) -> Seq<char>
    decreases s.len(),
{
    if s.len() == 0 {
        Seq::empty()
    } else if control_len(s) == 0 {
        seq![s[0]] + visible(s.skip(1))
    } else if control_len(s) <= s.len() {
        visible(s.skip(control_len(s) as int))
    } else {
        Seq::empty()
    }
}

/// A run of parameters lies within the text, and ends where it can.
pub proof fn lemma_parameter_run(s: Seq<char>, n: nat)
    requires
        n <= s.len(),
        forall|i: int| 0 <= i < n ==> '\u{20}' <= #[trigger] s[i] <= '\u{3f}',
        n < s.len() ==> !('\u{20}' <= s[n as int] <= '\u{3f}'),
    ensures
        parameter_run(s) == n,
    decreases n,
{
    if n > 0 {
        assert('\u{20}' <= s[0] <= '\u{3f}');
        assert forall|i: int| 0 <= i < n - 1 implies '\u{20}' <= #[trigger] s.skip(1)[i]
            <= '\u{3f}' by {
            assert(s.skip(1)[i] == s[i + 1]);
        }
        lemma_parameter_run(s.skip(1), (n - 1) as nat);
    }
}

/// The run up to a `\x02` ends at the first one.
pub proof fn lemma_marked_run(s: Seq<char>, n: nat)
    requires
        n <= s.len(),
        forall|i: int| 0 <= i < n ==> #[trigger] s[i] != '\u{2}',
        n < s.len() ==> s[n as int] == '\u{2}',
    ensures
        marked_run(s) == n,
    decreases n,
{
    if n > 0 {
        assert(s[0] != '\u{2}');
        assert forall|i: int| 0 <= i < n - 1 implies #[trigger] s.skip(1)[i] != '\u{2}' by {
            assert(s.skip(1)[i] == s[i + 1]);
        }
        lemma_marked_run(s.skip(1), (n - 1) as nat);
    }
}

/// The number of characters at position `from` that form one control sequence.
fn control_len_at(chars: &Vec<char>, from: usize) -> (r: usize)
    requires
        from < chars@.len(),
    ensures
        r == control_len(chars@.skip(from as int)),
        r <= chars@.len() - from,
{
    let total: usize = chars.len();
    let ghost s = chars@.skip(from as int);
    assert(s[0] == chars@[from as int]);
    if chars[from] == '\u{1}' {
        let mut i: usize = from + 1;
        while i < total && chars[i] != '\u{2}'
            invariant
                from < i <= total == chars@.len(),
                forall|j: int| from < j < i ==> #[trigger] chars@[j] != '\u{2}',
            decreases total - i,
        {
            i = i + 1;
        }
        proof {
            let t = s.skip(1);
            assert forall|j: int| 0 <= j < i - from - 1 implies #[trigger] t[j] != '\u{2}' by {
                assert(t[j] == chars@[from + 1 + j]);
            }
            if i < total {
                assert(t[i - from - 1] == chars@[i as int]);
            }
            lemma_marked_run(t, (i - from - 1) as nat);
        }
        if i < total {
            i - from + 1
        } else {
            i - from
        }
    } else if chars[from] == '\u{1b}' {
        if from + 1 == total {
            return 1;
        }
        assert(s[1] == chars@[from + 1]);
        if chars[from + 1] != '[' {
            return 2;
        }
        let mut i: usize = from + 2;
        while i < total && '\u{20}' <= chars[i] && chars[i] <= '\u{3f}'
            invariant
                from + 2 <= i <= total == chars@.len(),
                forall|j: int| from + 2 <= j < i ==> '\u{20}' <= #[trigger] chars@[j] <= '\u{3f}',
            decreases total - i,
        {
            i = i + 1;
        }
        proof {
            let t = s.skip(2);
            assert forall|j: int| 0 <= j < i - from - 2 implies '\u{20}' <= #[trigger] t[j]
                <= '\u{3f}' by {
                assert(t[j] == chars@[from + 2 + j]);
            }
            if i < total {
                assert(t[i - from - 2] == chars@[i as int]);
                assert(s[i - from] == chars@[i as int]);
            }
            lemma_parameter_run(t, (i - from - 2) as nat);
        }
        if i < total && '\u{40}' <= chars[i] && chars[i] <= '\u{7e}' {
            i - from + 1
        } else {
            i - from
        }
    } else {
        0
    }
}

/// The visible characters of `s`, without terminal control sequences and without
/// the parts between `\x01` and `\x02`.
pub fn strip_ansi_and_rl_markers(s: &str) -> (r: String)
    ensures
        r@ == visible(s@),
{
    let chars: Vec<char> = text::chars_of(s);
    let mut out = String::new();
    let mut i: usize = 0;
    assert(s@.skip(0) =~= s@);
    while i < chars.len()
        invariant
            i <= chars@.len(),
            chars@ == s@,
            out@ + visible(s@.skip(i as int)) == visible(s@),
        decreases chars@.len() - i,
    {
        let ghost rest = s@.skip(i as int);
        let n: usize = control_len_at(&chars, i);
        if n == 0 {
            proof {
                assert(rest.skip(1) =~= s@.skip(i + 1));
                assert(out@ + (seq![rest[0]] + visible(s@.skip(i + 1))) =~= out@.push(rest[0])
                    + visible(s@.skip(i + 1)));
            }
            out.push(chars[i]);
            i = i + 1;
        } else {
            assert(rest.skip(n as int) =~= s@.skip(i + n));
            i = i + n;
        }
    }
    assert(out@ + Seq::<char>::empty() =~= out@);
    out
}

/// How many terminal columns the visible characters of `s` take.
pub fn visible_display_width(s: &str) -> (r: usize)
    ensures
        r == width::column_width(visible(s@)),
        cluster::plain(visible(s@)) ==> r == visible(s@).len(),
{
    let shown: String = strip_ansi_and_rl_markers(s);
    width::width_of(shown.as_str())
}

/// How many terminal columns the visible characters of `s` behind its last line
/// feed take.
pub fn last_line_display_width(s: &str) -> (r: usize)
    ensures
        r == width::column_width(text::last_line(visible(s@))),
        cluster::plain(text::last_line(visible(s@))) ==> r == text::last_line(visible(s@)).len(),
{
    let shown: String = strip_ansi_and_rl_markers(s);
    let last: String = text::text_of_last_line(shown.as_str());
    width::width_of(last.as_str())
}

} // verus!
