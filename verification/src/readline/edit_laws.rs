//! What the editing commands do, told over the clusters of the line.

use crate::readline::cluster;
use crate::readline::line_buffer::LineState;
use crate::readline::text;
use crate::readline::undo;
use vstd::prelude::*;

verus! {

/// The clusters from `a` up to `b`, put together.
pub open spec fn between(clusters: Seq<Seq<char>>, a: nat, b: nat) -> Seq<char> {
    clusters.subrange(a as int, b as int).flatten()
}

/// A cut before cluster `i` parts the text into the clusters before it and those
/// from it on.
proof fn lemma_cut(text: Seq<char>, i: nat)
    requires
        cluster::segmented(text),
        i <= cluster::cluster_count(text),
    ensures
        ({
            let all = cluster::grapheme_clusters(text);
            let at = cluster::boundary(text, i);
            &&& 0 <= at <= text.len()
            &&& text.take(at) == between(all, 0, i)
            &&& text.skip(at) == between(all, i, all.len())
        }),
{
    let all = cluster::grapheme_clusters(text);
    let head = all.subrange(0, i as int);
    let tail = all.subrange(i as int, all.len() as int);
    cluster::lemma_boundaries(text, i, i);
    assert(all.take(i as int) =~= head);
    assert(all =~= head + tail);
    vstd::seq_lib::lemma_flatten_concat(head, tail);
    assert(text.skip(cluster::boundary(text, i)) =~= tail.flatten());
}

// ---------------------------------------------------------------------
// Edits
// ---------------------------------------------------------------------

/// An insertion puts its text between the clusters before the cursor and those
/// from it on. The cursor moves on by the clusters of the text, but not beyond the
/// end; the mark stays.
pub proof fn law_insert(line: LineState, added: Seq<char>)
    requires
        line.wf(),
    ensures
        ({
            let all = cluster::grapheme_clusters(line.text);
            let new = line.inserted(added);
            let to = line.cursor + cluster::cluster_count(added);
            &&& new.text == between(all, 0, line.cursor) + added + between(
                all,
                line.cursor,
                all.len(),
            )
            &&& new.mark == line.mark
            &&& added.len() > 0 && to <= cluster::cluster_count(new.text) ==> new.cursor == to
            &&& added.len() > 0 && to > cluster::cluster_count(new.text) ==> new.cursor
                == cluster::cluster_count(new.text)
            &&& added.len() == 0 ==> new == line
            &&& added.len() > 0 ==> new.log == line.log.push(
                undo::UndoAction::Insert { pos: line.cursor, text: added },
            )
        }),
{
    let all = cluster::grapheme_clusters(line.text);
    lemma_cut(line.text, line.cursor);
    if added.len() == 0 {
        let at = cluster::boundary(line.text, line.cursor);
        assert(line.text.take(at) + added + line.text.skip(at) =~= line.text);
    }
}

/// A deletion takes the clusters of its range out and records them, put together,
/// for undo. The cursor and the mark keep their distance to the end where they
/// stood behind the range, move to its start where they stood in it, and stay
/// where they stood before it; the cursor is kept within the line.
pub proof fn law_delete(line: LineState, pos: nat, n: nat)
    requires
        line.wf(),
        0 < n,
        pos + n <= line.count(),
    ensures
        ({
            let all = cluster::grapheme_clusters(line.text);
            let new = line.deleted(pos, n);
            let gone = between(all, pos, pos + n);
            let end = cluster::cluster_count(new.text);
            &&& new.text == between(all, 0, pos) + between(all, pos + n, all.len())
            &&& cluster::range_text(line.text, pos, pos + n) == gone
            &&& new.log == line.log.push(undo::UndoAction::Delete { pos, text: gone })
            &&& line.cursor <= pos && line.cursor <= end ==> new.cursor == line.cursor
            &&& pos < line.cursor <= pos + n && pos <= end ==> new.cursor == pos
            &&& line.cursor > pos + n && line.cursor - n <= end ==> new.cursor == line.cursor - n
            &&& new.cursor <= end
            &&& line.mark is None ==> new.mark is None
            &&& line.mark matches Some(m) ==> {
                &&& m <= pos ==> new.mark == Some(m)
                &&& pos < m <= pos + n ==> new.mark == Some(pos)
                &&& m > pos + n ==> new.mark == Some((m - n) as nat)
            }
        }),
{
    cluster::lemma_boundaries(line.text, pos, pos + n);
    lemma_cut(line.text, pos);
    lemma_cut(line.text, pos + n);
}

/// A transposition swaps two neighbouring clusters and leaves the others. It
/// stands in the log as one group. The cursor moves behind the pair.
pub proof fn law_transpose(line: LineState, pos: nat)
    requires
        line.wf(),
        0 < pos < line.count(),
    ensures
        ({
            let all = cluster::grapheme_clusters(line.text);
            let new = line.transposed(pos);
            let first = all[pos - 1];
            let second = all[pos as int];
            let before = (pos - 1) as nat;
            &&& new.text == between(all, 0, before) + second + first + between(
                all,
                pos + 1,
                all.len(),
            )
            &&& line.text == between(all, 0, before) + first + second + between(
                all,
                pos + 1,
                all.len(),
            )
            &&& pos + 1 <= cluster::cluster_count(new.text) ==> new.cursor == pos + 1
            &&& pos + 1 > cluster::cluster_count(new.text) ==> new.cursor
                == cluster::cluster_count(new.text)
            &&& line.mark matches Some(m) ==> {
                &&& m < pos ==> new.mark == Some(m)
                &&& pos <= m <= pos + 1 ==> new.mark == Some(before)
                &&& m > pos + 1 ==> new.mark == Some((m - 2) as nat)
            }
            &&& line.mark is None ==> new.mark is None
            &&& new.log.depth == line.log.depth
            &&& new.log.actions == line.log.actions + seq![
                undo::UndoAction::GroupBegin,
                undo::UndoAction::Delete { pos: before, text: first + second },
                undo::UndoAction::Insert { pos: before, text: second + first },
                undo::UndoAction::GroupEnd,
            ]
        }),
{
    let all = cluster::grapheme_clusters(line.text);
    let before = (pos - 1) as nat;
    let new = line.transposed(pos);
    let first = all[pos - 1];
    let second = all[pos as int];
    cluster::lemma_boundaries(line.text, before, pos);
    cluster::lemma_boundaries(line.text, pos, pos + 1);
    cluster::lemma_one_cluster(line.text, before);
    cluster::lemma_one_cluster(line.text, pos);
    lemma_cut(line.text, before);
    lemma_cut(line.text, pos + 1);
    assert(new.text =~= between(all, 0, before) + second + first + between(
        all,
        pos + 1,
        all.len(),
    ));
    assert(line.text =~= between(all, 0, before) + first + second + between(
        all,
        pos + 1,
        all.len(),
    ));
    assert(new.log.actions =~= line.log.actions + seq![
        undo::UndoAction::GroupBegin,
        undo::UndoAction::Delete { pos: before, text: first + second },
        undo::UndoAction::Insert { pos: before, text: second + first },
        undo::UndoAction::GroupEnd,
    ]);
    assert(first == cluster::range_text(line.text, before, pos));
}

/// The swapped pair: the cluster at the cursor and the one before it, or the last
/// two where the cursor is at the end.
pub proof fn law_swapped_pair(line: LineState)
    requires
        line.wf(),
        line.count() >= 2,
        line.cursor > 0,
    ensures
        line.cursor < line.count() ==> line.swap_pos() == line.cursor,
        line.cursor == line.count() ==> line.swap_pos() == line.count() - 1,
{
}

/// Taking back an insertion takes out as many clusters as its text has by itself;
/// taking back a deletion puts its text in again. The cursor then stands before
/// the gap, or behind the restored text, within the line.
pub proof fn law_revert(line: LineState, pos: nat, t: Seq<char>)
    requires
        line.wf(),
        pos + cluster::cluster_count(t) <= line.count(),
    ensures
        ({
            let all = cluster::grapheme_clusters(line.text);
            let n = cluster::cluster_count(t);
            let out = line.reverted(undo::UndoAction::Insert { pos, text: t });
            let put = line.reverted(undo::UndoAction::Delete { pos, text: t });
            &&& out.text == between(all, 0, pos) + between(all, pos + n, all.len())
            &&& pos <= cluster::cluster_count(out.text) ==> out.cursor == pos
            &&& out.mark == line.mark && out.log == line.log
            &&& put.text == between(all, 0, pos) + t + between(all, pos, all.len())
            &&& pos + n <= cluster::cluster_count(put.text) ==> put.cursor == pos + n
            &&& put.mark == line.mark && put.log == line.log
        }),
{
    lemma_cut(line.text, pos);
    lemma_cut(line.text, pos + cluster::cluster_count(t));
}

// ---------------------------------------------------------------------
// Cursor and mark
// ---------------------------------------------------------------------

/// Moving the cursor changes the cursor alone, setting a mark the mark alone, and
/// replacing the undo log the log alone. Exchanging puts the mark where the cursor
/// was, and the cursor where the mark was, or at the end of the line where that is
/// nearer.
pub proof fn law_cursor_and_mark(line: LineState, pos: nat, m: nat, log: undo::UndoLog)
    ensures
        line.with_log(log) == (LineState { log, ..line }),
        line.at(pos) == (LineState { cursor: pos, ..line }),
        line.marked(Some(pos)) == (LineState { mark: Some(pos), ..line }),
        line.marked(None) == (LineState { mark: None, ..line }),
        line.mark == Some(m) && m <= line.count() ==> line.exchanged() == (LineState {
            cursor: m,
            mark: Some(line.cursor),
            ..line
        }),
        line.mark == Some(m) && m > line.count() ==> line.exchanged() == (LineState {
            cursor: line.count(),
            mark: Some(line.cursor),
            ..line
        }),
{
}

/// A new line holds its text with the cursor behind the last cluster, without a
/// mark, and with nothing to undo.
pub proof fn law_new_line(t: Seq<char>)
    ensures
        LineState::holding(t) == (LineState {
            text: t,
            cursor: cluster::grapheme_clusters(t).len(),
            mark: None,
            log: undo::UndoLog { actions: Seq::empty(), depth: 0 },
        }),
        LineState::blank() == (LineState {
            text: Seq::empty(),
            cursor: 0,
            mark: None,
            log: undo::UndoLog { actions: Seq::empty(), depth: 0 },
        }),
{
}

// ---------------------------------------------------------------------
// Words
// ---------------------------------------------------------------------

/// `true` when the first character of a cluster is a letter, a digit or `_`.
pub open spec fn begins_word(c: Seq<char>) -> bool {
    cluster::alphanumeric(c[0]) || c[0] == '_'
}

/// `true` when a cluster holds whitespace only.
pub open spec fn blank(c: Seq<char>) -> bool {
    forall|k: int| 0 <= k < c.len() ==> text::white_space(#[trigger] c[k])
}

/// A cluster belongs to a word exactly where its first character is a letter or a
/// digit of any script, or `_`.
pub proof fn law_word_cluster(c: Seq<char>)
    requires
        c.len() > 0,
    ensures
        cluster::word_cluster(c) == (cluster::alphanumeric(c[0]) || c[0] == '_'),
{
}

/// The motion forward by a word passes clusters outside words and then clusters of
/// one word, and stops at the end of that word: behind a cluster of a word, where
/// none follows, or at the end of the line.
pub proof fn law_word_forward(line: LineState)
    requires
        line.wf(),
    ensures
        ({
            let all = cluster::grapheme_clusters(line.text);
            let end = line.next_word_end() as int;
            &&& line.cursor <= end <= all.len()
            &&& forall|i: int, j: int|
                line.cursor <= i < j < end && begins_word(#[trigger] all[i]) ==> begins_word(
                    #[trigger] all[j],
                )
            &&& end < all.len() ==> line.cursor < end && begins_word(all[end - 1])
                && !begins_word(all[end])
        }),
{
    let all = cluster::grapheme_clusters(line.text);
    let words = cluster::word_flags(all);
    let start = cluster::run_end(words, line.cursor as int, false);
    let end = line.next_word_end() as int;
    cluster::lemma_run_end(words, line.cursor as int, false);
    cluster::lemma_run_end(words, start, true);
    assert forall|i: int| 0 <= i < all.len() implies #[trigger] words[i] == begins_word(all[i]) by {
        law_word_cluster(all[i]);
    }
    assert forall|i: int, j: int|
        line.cursor <= i < j < end && begins_word(#[trigger] all[i]) implies begins_word(
        #[trigger] all[j],
    ) by {
        assert(words[i] && words[j] == begins_word(all[j]));
        assert(i >= start);
    }
    if end < all.len() {
        assert(words[end - 1]);
    }
}

/// The motion backward by a word passes clusters outside words and then clusters of
/// one word, and stops at the start of that word: before a cluster of a word,
/// where none stands before it, or at the start of the line.
pub proof fn law_word_backward(line: LineState)
    requires
        line.wf(),
    ensures
        ({
            let all = cluster::grapheme_clusters(line.text);
            let start = line.word_start() as int;
            &&& 0 <= start <= line.cursor
            &&& forall|i: int, j: int|
                start <= i < j < line.cursor && begins_word(#[trigger] all[j]) ==> begins_word(
                    #[trigger] all[i],
                )
            &&& start > 0 ==> start < line.cursor && begins_word(all[start]) && !begins_word(
                all[start - 1],
            )
        }),
{
    let all = cluster::grapheme_clusters(line.text);
    let words = cluster::word_flags(all);
    let end = cluster::run_start(words, line.cursor as int, false);
    let start = line.word_start() as int;
    cluster::lemma_run_start(words, line.cursor as int, false);
    cluster::lemma_run_start(words, end, true);
    assert forall|i: int| 0 <= i < all.len() implies #[trigger] words[i] == begins_word(all[i]) by {
        law_word_cluster(all[i]);
    }
    assert forall|i: int, j: int|
        start <= i < j < line.cursor && begins_word(#[trigger] all[j]) implies begins_word(
        #[trigger] all[i],
    ) by {
        assert(words[j] && words[i] == begins_word(all[i]));
        assert(j < end);
    }
    if start > 0 {
        assert(words[start]);
        assert(!words[start - 1]);
    }
}

/// What the kill commands for words take: before the cursor, one run of clusters
/// that are not blank with the blanks behind it; behind the cursor, blanks and then
/// one such run. Each ends next to a blank, or at an end of the line.
pub proof fn law_word_kills(line: LineState)
    requires
        line.wf(),
    ensures
        ({
            let all = cluster::grapheme_clusters(line.text);
            let pos = line.after_blank() as int;
            let end = line.next_blank() as int;
            &&& 0 <= pos <= line.cursor <= end <= all.len()
            &&& forall|i: int, j: int|
                pos <= i < j < line.cursor && blank(#[trigger] all[i]) ==> blank(#[trigger] all[j])
            &&& pos > 0 ==> pos < line.cursor && !blank(all[pos]) && blank(all[pos - 1])
            &&& forall|i: int, j: int|
                line.cursor <= i < j < end && blank(#[trigger] all[j]) ==> blank(#[trigger] all[i])
            &&& end < all.len() ==> line.cursor < end && !blank(all[end - 1]) && blank(all[end])
        }),
{
    let all = cluster::grapheme_clusters(line.text);
    let blanks = cluster::blank_flags(all);
    let behind = cluster::run_start(blanks, line.cursor as int, true);
    let ahead = cluster::run_end(blanks, line.cursor as int, true);
    let pos = line.after_blank() as int;
    let end = line.next_blank() as int;
    cluster::lemma_run_start(blanks, line.cursor as int, true);
    cluster::lemma_run_start(blanks, behind, false);
    cluster::lemma_run_end(blanks, line.cursor as int, true);
    cluster::lemma_run_end(blanks, ahead, false);
    assert forall|i: int| 0 <= i < all.len() implies #[trigger] blanks[i] == blank(all[i]) by {}
    assert forall|i: int, j: int|
        pos <= i < j < line.cursor && blank(#[trigger] all[i]) implies blank(#[trigger] all[j]) by {
        assert(blanks[i] && blanks[j] == blank(all[j]));
        assert(i >= behind);
    }
    assert forall|i: int, j: int|
        line.cursor <= i < j < end && blank(#[trigger] all[j]) implies blank(#[trigger] all[i]) by {
        assert(blanks[j] && blanks[i] == blank(all[i]));
        assert(j < ahead);
    }
    if pos > 0 {
        assert(!blanks[pos]);
        assert(blanks[pos - 1]);
    }
    if end < all.len() {
        assert(!blanks[end - 1]);
        assert(blanks[end]);
    }
}

} // verus!
