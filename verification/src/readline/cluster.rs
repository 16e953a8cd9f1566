//! Grapheme clusters: how a line of text falls into the units that a terminal
//! user perceives as one character, and edits at the boundaries between them.
//!
//! The segmentation itself is computed by the `unicode-segmentation` crate.

use crate::readline::text;
use unicode_segmentation::UnicodeSegmentation;
use vstd::prelude::*;
use vstd::string::*;
use vstd::utf8::*;

verus! {

/// The extended grapheme clusters of a text, as `UnicodeSegmentation` finds them.
pub uninterp spec fn grapheme_clusters(text: Seq<char>) -> Seq<Seq<char>>;

/// The contents of a sequence of string slices.
pub open spec fn slices(parts: Seq<&str>) -> Seq<Seq<char>> {
    Seq::new(parts.len(), |i: int| parts[i]@)
}

/// The number of bytes that `s` takes in UTF-8.
pub open spec fn byte_len(s: Seq<char>) -> nat {
    encode_utf8(s).len()
}

/// `true` when `s` holds printable ASCII characters only.
pub open spec fn plain(s: Seq<char>) -> bool {
    forall|i: int| 0 <= i < s.len() ==> ' ' <= #[trigger] s[i] <= '~'
}

/// Calls `UnicodeSegmentation::graphemes` for extended clusters and collects
/// what it yields. Believed of it:
///
/// - The clusters are those named by `grapheme_clusters`, none of them is empty,
///   and put together they are the text again.
/// - Whether a cluster ends between two characters is decided by the characters
///   up to the second of them. So a text that is cut behind one of its clusters
///   keeps the clusters before the cut, and no part at the start of a text has
///   more clusters than the text.
/// - Printable ASCII has one cluster for each character.
#[verifier::external_body]
pub(crate) fn graphemes(s: &str) -> (r: Vec<&str>)
    ensures
        slices(r@) == grapheme_clusters(s@),
        slices(r@).flatten() == s@,
        forall|i: int| 0 <= i < r@.len() ==> (#[trigger] r@[i])@.len() > 0,
        forall|k: int|
            0 <= k <= r@.len() ==> grapheme_clusters((#[trigger] slices(r@).take(k)).flatten())
                == slices(r@).take(k),
        forall|i: int|
            0 <= i <= s@.len() ==> grapheme_clusters(#[trigger] s@.take(i)).len() <= r@.len(),
        plain(s@) ==> r@.len() == s@.len(),
{
    s.graphemes(true).collect()
}

/// Calls `UnicodeSegmentation::grapheme_indices` for extended clusters and
/// collects what it yields. Believed of it: it yields the same clusters as
/// `graphemes`, each with the number of bytes that stand before it.
#[verifier::external_body]
pub(crate) fn grapheme_indices(s: &str) -> (r: Vec<(usize, &str)>)
    ensures
        r@.len() == grapheme_clusters(s@).len(),
        forall|i: int|
            #![trigger r@[i]]
            0 <= i < r@.len() ==> r@[i].1@ == grapheme_clusters(s@)[i] && r@[i].0 == byte_len(
                grapheme_clusters(s@).take(i).flatten(),
            ),
{
    s.grapheme_indices(true).collect()
}

// ---------------------------------------------------------------------
// Clusters and boundaries of a text
// ---------------------------------------------------------------------

/// The number of grapheme clusters of `text`.
pub open spec fn cluster_count(text: Seq<char>) -> nat {
    grapheme_clusters(text).len()
}

/// What holds of the segmentation of every text that a string was seen to
/// hold: no cluster is empty, the clusters make up the text, a cut behind a
/// cluster keeps the clusters before it, no part at the start has more clusters,
/// and printable ASCII has one for each character.
pub open spec fn segmented(text: Seq<char>) -> bool {
    &&& grapheme_clusters(text).flatten() == text
    &&& forall|i: int|
        0 <= i < grapheme_clusters(text).len() ==> (#[trigger] grapheme_clusters(text)[i]).len() > 0
    &&& forall|k: int|
        0 <= k <= grapheme_clusters(text).len() ==> grapheme_clusters(
            (#[trigger] grapheme_clusters(text).take(k)).flatten(),
        ) == grapheme_clusters(text).take(k)
    &&& forall|i: int|
        0 <= i <= text.len() ==> cluster_count(#[trigger] text.take(i)) <= cluster_count(text)
    &&& plain(text) ==> cluster_count(text) == text.len()
}

/// The smaller of two numbers.
pub open spec fn least(a: int, b: int) -> int {
    if a <= b {
        a
    } else {
        b
    }
}

/// The first `i` clusters of `text` as one text: all of it where it has fewer.
pub open spec fn prefix_text(text: Seq<char>, i: nat) -> Seq<char> {
    grapheme_clusters(text).take(least(i as int, cluster_count(text) as int)).flatten()
}

/// The position, in characters, of the boundary before cluster `i` of `text`:
/// its end where it has no such cluster.
pub open spec fn boundary(text: Seq<char>, i: nat) -> int {
    prefix_text(text, i).len() as int
}

/// The clusters `a` up to `b` of `text` as one text.
pub open spec fn range_text(text: Seq<char>, a: nat, b: nat) -> Seq<char> {
    text.subrange(boundary(text, a), boundary(text, b))
}

/// `text` with `added` put in before cluster `i`.
pub open spec fn with_inserted(text: Seq<char>, i: nat, added: Seq<char>) -> Seq<char> {
    text.take(boundary(text, i)) + added + text.skip(boundary(text, i))
}

/// `text` without its clusters `a` up to `b`.
pub open spec fn without_range(text: Seq<char>, a: nat, b: nat) -> Seq<char> {
    text.take(boundary(text, a)) + text.skip(boundary(text, b))
}

/// Boundaries lie within the text, in order, and cut it where its clusters end.
pub proof fn lemma_boundaries(text: Seq<char>, a: nat, b: nat)
    requires
        segmented(text),
        a <= b,
    ensures
        0 <= boundary(text, a) <= boundary(text, b) <= text.len(),
        text.take(boundary(text, a)) == prefix_text(text, a),
        text.take(boundary(text, b)) == prefix_text(text, b),
        a == 0 ==> boundary(text, a) == 0,
        b >= cluster_count(text) ==> boundary(text, b) == text.len(),
        a < b && a < cluster_count(text) ==> boundary(text, a) < boundary(text, b),
        b <= cluster_count(text) ==> range_text(text, a, b) == grapheme_clusters(text).subrange(
            a as int,
            b as int,
        ).flatten(),
{
    let all = grapheme_clusters(text);
    let n = all.len() as int;
    let i = least(a as int, n);
    let j = least(b as int, n);
    let head = all.take(i);
    let mid = all.subrange(i, j);
    let tail = all.skip(j);
    assert(all.take(j) =~= head + mid);
    assert(all =~= all.take(j) + tail);
    vstd::seq_lib::lemma_flatten_concat(head, mid);
    vstd::seq_lib::lemma_flatten_concat(all.take(j), tail);
    assert(text == head.flatten() + mid.flatten() + tail.flatten());
    assert(text.take(boundary(text, a)) =~= prefix_text(text, a));
    assert(text.take(boundary(text, b)) =~= prefix_text(text, b));
    if b >= n {
        assert(all.take(j) =~= all);
    }
    if i < j {
        assert(mid =~= seq![mid[0]] + mid.drop_first());
        assert(mid[0] == all[i]);
        assert(mid.flatten().len() >= mid[0].len());
    }
    if b <= n {
        assert(range_text(text, a, b) =~= mid.flatten());
    }
}

/// A range of one cluster holds that cluster.
pub proof fn lemma_one_cluster(text: Seq<char>, i: nat)
    requires
        segmented(text),
        i < cluster_count(text),
    ensures
        range_text(text, i, i + 1) == grapheme_clusters(text)[i as int],
{
    lemma_boundaries(text, i, i + 1);
    let one = grapheme_clusters(text).subrange(i as int, i as int + 1);
    one.lemma_flatten_one_element();
}

/// A text has clusters only if it has characters, and no more of the former
/// than of the latter.
pub proof fn lemma_count(text: Seq<char>)
    requires
        segmented(text),
    ensures
        cluster_count(text) <= text.len(),
        text.len() > 0 ==> cluster_count(text) > 0,
{
    lemma_gap(text, 0, cluster_count(text));
    lemma_boundaries(text, 0, cluster_count(text));
}

/// The clusters `a` up to `b` of a text take at least as many characters.
proof fn lemma_gap(text: Seq<char>, a: nat, b: nat)
    requires
        segmented(text),
        a <= b <= cluster_count(text),
    ensures
        b - a <= boundary(text, b) - boundary(text, a),
    decreases b - a,
{
    if a < b {
        lemma_gap(text, a, (b - 1) as nat);
        lemma_boundaries(text, (b - 1) as nat, b);
    }
}

/// In printable ASCII, cluster boundaries are character positions.
pub proof fn lemma_plain_boundary(text: Seq<char>, i: nat)
    requires
        segmented(text),
        plain(text),
        i <= text.len(),
    ensures
        boundary(text, i) == i,
        cluster_count(text) == text.len(),
{
    let n = cluster_count(text);
    lemma_gap(text, 0, i);
    lemma_gap(text, i, n);
    lemma_boundaries(text, 0, i);
    lemma_boundaries(text, i, n);
}

/// The text before cluster `i` has the clusters that it has within the whole.
pub proof fn lemma_prefix_count(text: Seq<char>, i: nat)
    requires
        segmented(text),
        i <= cluster_count(text),
    ensures
        grapheme_clusters(prefix_text(text, i)) == grapheme_clusters(text).take(i as int),
        cluster_count(prefix_text(text, i)) == i,
{
    assert(grapheme_clusters(text).take(i as int).len() == i);
}

/// A text that begins with the first `i` clusters of another one has at least as
/// many.
pub proof fn lemma_kept_count(text: Seq<char>, i: nat, new: Seq<char>)
    requires
        segmented(text),
        segmented(new),
        i <= cluster_count(text),
        prefix_text(text, i).is_prefix_of(new),
    ensures
        i <= cluster_count(new),
{
    let head = prefix_text(text, i);
    lemma_prefix_count(text, i);
    assert(new.take(head.len() as int) =~= head);
}

/// What `graphemes` tells of a text.
pub(crate) proof fn lemma_segmented(text: Seq<char>, parts: Seq<&str>)
    requires
        slices(parts) == grapheme_clusters(text),
        slices(parts).flatten() == text,
        forall|i: int| 0 <= i < parts.len() ==> (#[trigger] parts[i])@.len() > 0,
        forall|k: int|
            0 <= k <= parts.len() ==> grapheme_clusters(
                (#[trigger] slices(parts).take(k)).flatten(),
            ) == slices(parts).take(k),
        forall|i: int|
            0 <= i <= text.len() ==> grapheme_clusters(#[trigger] text.take(i)).len()
                <= parts.len(),
        plain(text) ==> parts.len() == text.len(),
    ensures
        segmented(text),
        parts.len() == cluster_count(text),
{
    assert forall|i: int| 0 <= i < grapheme_clusters(text).len() implies (
    #[trigger] grapheme_clusters(text)[i]).len() > 0 by {
        assert(parts[i]@ == slices(parts)[i]);
    }
}

/// The number of grapheme clusters of `s`.
pub fn count_graphemes(s: &str) -> (n: usize)
    ensures
        n == cluster_count(s@),
        segmented(s@),
{
    let parts: Vec<&str> = graphemes(s);
    proof {
        lemma_segmented(s@, parts@);
    }
    parts.len()
}

// ---------------------------------------------------------------------
// UTF-8
// ---------------------------------------------------------------------

/// The encoding of two texts put together is that of the one and then the
/// other, and the cut between them is a character boundary.
pub proof fn lemma_encode_concat(a: Seq<char>, b: Seq<char>)
    ensures
        encode_utf8(a + b) == encode_utf8(a) + encode_utf8(b),
        is_char_boundary(encode_utf8(a + b), byte_len(a) as int),
    decreases a.len(),
{
    let bytes = encode_utf8(a + b);
    encode_utf8_valid_utf8(a + b);
    if a.len() == 0 {
        assert(a + b =~= b);
        assert(encode_utf8(a) + encode_utf8(b) =~= encode_utf8(b));
    } else {
        let rest = a.drop_first();
        lemma_encode_concat(rest, b);
        assert((a + b).drop_first() =~= rest + b);
        encode_utf8_first_scalar(a + b);
        assert(bytes =~= encode_utf8(a) + encode_utf8(b));
        assert(pop_first_scalar(bytes) =~= encode_utf8(rest + b));
    }
}

/// Two texts with the same encoding are the same.
pub proof fn lemma_encode_injective(a: Seq<char>, b: Seq<char>)
    requires
        encode_utf8(a) == encode_utf8(b),
    ensures
        a == b,
{
    encode_utf8_decode_utf8(a);
    encode_utf8_decode_utf8(b);
}

/// `text` with the bytes `from..to` replaced by `with`.
pub fn splice(text: &str, from: usize, to: usize, with: &str) -> (r: String)
    requires
        is_char_boundary(text.spec_bytes(), from as int),
        is_char_boundary(text.spec_bytes(), to as int),
        from <= to,
    ensures
        encode_utf8(r@) == text.spec_bytes().take(from as int) + with.spec_bytes()
            + text.spec_bytes().skip(to as int),
{
    let left: &str = text.split_at(from).0;
    let right: &str = text.split_at(to).1;
    let mut out = String::new();
    out.append(left);
    out.append(with);
    out.append(right);
    proof {
        encode_utf8_valid_utf8(text@);
        lemma_encode_concat(left@ + with@, right@);
        lemma_encode_concat(left@, with@);
        assert(out@ =~= left@ + with@ + right@);
        assert(text.spec_bytes().take(from as int) =~= text.spec_bytes().subrange(0, from as int));
        assert(text.spec_bytes().skip(to as int) =~= text.spec_bytes().subrange(
            to as int,
            text.spec_bytes().len() as int,
        ));
    }
    out
}

/// Where the first `i` characters of `text` end in its encoding.
pub proof fn lemma_cut(text: Seq<char>, i: int)
    requires
        0 <= i <= text.len(),
    ensures
        is_char_boundary(encode_utf8(text), byte_len(text.take(i)) as int),
        byte_len(text.take(i)) <= byte_len(text),
        encode_utf8(text).take(byte_len(text.take(i)) as int) == encode_utf8(text.take(i)),
        encode_utf8(text).skip(byte_len(text.take(i)) as int) == encode_utf8(text.skip(i)),
{
    let a = text.take(i);
    let b = text.skip(i);
    assert(text =~= a + b);
    lemma_encode_concat(a, b);
    assert(encode_utf8(text).take(byte_len(a) as int) =~= encode_utf8(a));
    assert(encode_utf8(text).skip(byte_len(a) as int) =~= encode_utf8(b));
}

/// A longer prefix does not take fewer bytes.
pub proof fn lemma_cut_order(text: Seq<char>, i: int, j: int)
    requires
        0 <= i <= j <= text.len(),
    ensures
        byte_len(text.take(i)) <= byte_len(text.take(j)),
{
    assert(text.take(j).take(i) =~= text.take(i));
    lemma_cut(text.take(j), i);
}

/// Replacing bytes between two character cuts replaces the characters between
/// them.
pub proof fn lemma_splice(text: Seq<char>, i: int, j: int, with: Seq<char>, r: Seq<char>)
    requires
        0 <= i <= j <= text.len(),
        encode_utf8(r) == encode_utf8(text).take(byte_len(text.take(i)) as int) + encode_utf8(with)
            + encode_utf8(text).skip(byte_len(text.take(j)) as int),
    ensures
        r == text.take(i) + with + text.skip(j),
{
    lemma_cut(text, i);
    lemma_cut(text, j);
    lemma_encode_concat(text.take(i) + with, text.skip(j));
    lemma_encode_concat(text.take(i), with);
    lemma_encode_injective(r, text.take(i) + with + text.skip(j));
}

/// The byte offset of cluster `idx`, given the clusters with their offsets and
/// the number of bytes of the text: the end of the text where there is no such
/// cluster.
pub fn nth_offset(indices: &Vec<(usize, &str)>, idx: usize, end: usize) -> (r: usize)
    ensures
        r == (if idx < indices@.len() {
            indices@[idx as int].0
        } else {
            end
        }),
{
    if idx < indices.len() {
        indices[idx].0
    } else {
        end
    }
}

/// The byte offset of the boundary before cluster `idx` of `s`.
pub fn byte_offset(s: &str, idx: usize) -> (r: usize)
    ensures
        r == byte_len(prefix_text(s@, idx as nat)),
        segmented(s@),
{
    let count: usize = count_graphemes(s);
    let indices: Vec<(usize, &str)> = grapheme_indices(s);
    let end: usize = s.as_bytes().len();
    assert(grapheme_clusters(s@).take(count as int) =~= grapheme_clusters(s@));
    nth_offset(&indices, idx, end)
}

/// `s` with `added` put in before cluster `idx`.
pub fn insert_text(s: &str, idx: usize, added: &str) -> (r: String)
    ensures
        r@ == with_inserted(s@, idx as nat, added@),
        segmented(s@),
{
    let at: usize = byte_offset(s, idx);
    proof {
        lemma_boundaries(s@, idx as nat, idx as nat);
        lemma_cut(s@, boundary(s@, idx as nat));
    }
    let out: String = splice(s, at, at, added);
    proof {
        lemma_splice(s@, boundary(s@, idx as nat), boundary(s@, idx as nat), added@, out@);
    }
    out
}

/// `s` with its clusters `from` up to `to` replaced by `with`.
pub fn replace_clusters(s: &str, from: usize, to: usize, with: &str) -> (r: String)
    requires
        from <= to,
    ensures
        r@ == s@.take(boundary(s@, from as nat)) + with@ + s@.skip(boundary(s@, to as nat)),
        segmented(s@),
{
    let a: usize = byte_offset(s, from);
    let b: usize = byte_offset(s, to);
    let ghost i = boundary(s@, from as nat);
    let ghost j = boundary(s@, to as nat);
    proof {
        lemma_boundaries(s@, from as nat, to as nat);
        lemma_cut(s@, i);
        lemma_cut(s@, j);
        lemma_cut_order(s@, i, j);
    }
    let out: String = splice(s, a, b, with);
    proof {
        lemma_splice(s@, i, j, with@, out@);
    }
    out
}

/// The clusters `start` up to `end` of a text put together: none where `end`
/// is not above `start`.
pub fn join_clusters(parts: &Vec<&str>, start: usize, end: usize) -> (r: String)
    ensures
        r@ == slices(parts@).subrange(
            least(start as int, parts@.len() as int),
            least(
                if start <= end {
                    end as int
                } else {
                    start as int
                },
                parts@.len() as int,
            ),
        ).flatten(),
{
    let count: usize = parts.len();
    let from: usize = if start < count {
        start
    } else {
        count
    };
    let upto: usize = if end < start {
        start
    } else {
        end
    };
    let to: usize = if upto < count {
        upto
    } else {
        count
    };
    let mut out = String::new();
    let mut i: usize = from;
    assert(slices(parts@).subrange(from as int, i as int) =~= Seq::<Seq<char>>::empty());
    while i < to
        invariant
            from <= i <= to <= parts@.len(),
            out@ == slices(parts@).subrange(from as int, i as int).flatten(),
        decreases to - i,
    {
        out.append(parts[i]);
        proof {
            let done = slices(parts@).subrange(from as int, i as int);
            done.lemma_flatten_push(parts@[i as int]@);
            assert(done.push(parts@[i as int]@) =~= slices(parts@).subrange(from as int, i + 1));
        }
        i = i + 1;
    }
    out
}

// ---------------------------------------------------------------------
// Words
// ---------------------------------------------------------------------

/// The characters that are letters or digits in any script, as
/// `char::is_alphanumeric` decides it.
pub uninterp spec fn alphanumeric(c: char) -> bool;

/// `char::is_alphanumeric` tells from the character alone whether it is
/// alphabetic or numeric; `alphanumeric` names its answer.
pub assume_specification[ char::is_alphanumeric ](c: char) -> (r: bool)
    ensures
        r == alphanumeric(c),
;

/// A cluster that belongs to a word: its first character is a letter, a digit
/// or an underscore.
pub open spec fn word_cluster(cluster: Seq<char>) -> bool {
    cluster.len() > 0 && (alphanumeric(cluster[0]) || cluster[0] == '_')
}

/// Which clusters of a text belong to a word.
pub open spec fn word_flags(clusters: Seq<Seq<char>>) -> Seq<bool> {
    Seq::new(clusters.len(), |i: int| word_cluster(clusters[i]))
}

/// Which clusters of a text are whitespace.
pub open spec fn blank_flags(clusters: Seq<Seq<char>>) -> Seq<bool> {
    Seq::new(clusters.len(), |i: int| text::all_white_space(clusters[i]))
}

/// The end of the run of flags equal to `value` that begins at `from`.
pub open spec fn run_end(flags: Seq<bool>, from: int, value: bool) -> int
    decreases flags.len() - from,
{
    if 0 <= from < flags.len() && flags[from] == value {
        run_end(flags, from + 1, value)
    } else {
        from
    }
}

/// The start of the run of flags equal to `value` that ends before `to`.
pub open spec fn run_start(flags: Seq<bool>, to: int, value: bool) -> int
    decreases to,
{
    if 0 < to <= flags.len() && flags[to - 1] == value {
        run_start(flags, to - 1, value)
    } else {
        to
    }
}

/// `true` when `cluster` belongs to a word.
pub fn is_word_char(cluster: &str) -> (r: bool)
    ensures
        r == word_cluster(cluster@),
{
    let chars: Vec<char> = text::chars_of(cluster);
    if chars.len() == 0 {
        return false;
    }
    let c: char = chars[0];
    c.is_alphanumeric() || c == '_'
}

/// Which of the given clusters belong to a word.
pub fn word_flags_of(parts: &Vec<&str>) -> (r: Vec<bool>)
    ensures
        r@ == word_flags(slices(parts@)),
{
    let mut out: Vec<bool> = Vec::new();
    let mut i: usize = 0;
    while i < parts.len()
        invariant
            i <= parts@.len(),
            out@.len() == i,
            forall|j: int| 0 <= j < i ==> out@[j] == word_cluster(parts@[j]@),
        decreases parts@.len() - i,
    {
        out.push(is_word_char(parts[i]));
        i = i + 1;
    }
    assert(out@ =~= word_flags(slices(parts@)));
    out
}

/// Which of the given clusters are whitespace.
pub fn blank_flags_of(parts: &Vec<&str>) -> (r: Vec<bool>)
    ensures
        r@ == blank_flags(slices(parts@)),
{
    let mut out: Vec<bool> = Vec::new();
    let mut i: usize = 0;
    while i < parts.len()
        invariant
            i <= parts@.len(),
            out@.len() == i,
            forall|j: int| 0 <= j < i ==> out@[j] == text::all_white_space(parts@[j]@),
        decreases parts@.len() - i,
    {
        out.push(text::is_all_white_space(parts[i]));
        i = i + 1;
    }
    assert(out@ =~= blank_flags(slices(parts@)));
    out
}

/// Where `run_end` lies, and what it says of the flags.
pub proof fn lemma_run_end(flags: Seq<bool>, from: int, value: bool)
    requires
        0 <= from <= flags.len(),
    ensures
        from <= run_end(flags, from, value) <= flags.len(),
        forall|i: int| from <= i < run_end(flags, from, value) ==> flags[i] == value,
        run_end(flags, from, value) < flags.len() ==> flags[run_end(flags, from, value)] != value,
    decreases flags.len() - from,
{
    if from < flags.len() && flags[from] == value {
        lemma_run_end(flags, from + 1, value);
    }
}

/// Where `run_start` lies, and what it says of the flags.
pub proof fn lemma_run_start(flags: Seq<bool>, to: int, value: bool)
    requires
        0 <= to <= flags.len(),
    ensures
        0 <= run_start(flags, to, value) <= to,
        forall|i: int| run_start(flags, to, value) <= i < to ==> flags[i] == value,
        run_start(flags, to, value) > 0 ==> flags[run_start(flags, to, value) - 1] != value,
    decreases to,
{
    if to > 0 && flags[to - 1] == value {
        lemma_run_start(flags, to - 1, value);
    }
}

/// The end of the run of flags equal to `value` that begins at `from`.
pub fn skip_run(flags: &Vec<bool>, from: usize, value: bool) -> (r: usize)
    requires
        from <= flags@.len(),
    ensures
        r == run_end(flags@, from as int, value),
        from <= r <= flags@.len(),
{
    let mut pos: usize = from;
    while pos < flags.len() && flags[pos] == value
        invariant
            from <= pos <= flags@.len(),
            run_end(flags@, pos as int, value) == run_end(flags@, from as int, value),
        decreases flags@.len() - pos,
    {
        pos = pos + 1;
    }
    pos
}

/// The start of the run of flags equal to `value` that ends before `to`.
pub fn skip_run_back(flags: &Vec<bool>, to: usize, value: bool) -> (r: usize)
    requires
        to <= flags@.len(),
    ensures
        r == run_start(flags@, to as int, value),
        r <= to,
{
    let mut pos: usize = to;
    while pos > 0 && flags[pos - 1] == value
        invariant
            pos <= to <= flags@.len(),
            run_start(flags@, pos as int, value) == run_start(flags@, to as int, value),
        decreases pos,
    {
        pos = pos - 1;
    }
    pos
}

} // verus!
