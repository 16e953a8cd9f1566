//! Laws of the line buffer: what undo gives back, and what the editing
//! commands keep.

use crate::readline::cluster;
use crate::readline::line_buffer::LineState;
use crate::readline::undo;
use vstd::prelude::*;

verus! {

// ---------------------------------------------------------------------
// Undoing one edit
// ---------------------------------------------------------------------

/// `true` when `added`, put in before cluster `pos` of `text`, starts and ends
/// at the cluster boundaries of the new text that its place and its own number
/// of clusters make one expect. A combining mark typed behind a letter is the usual exception: it
/// becomes part of the letter's cluster.
pub open spec fn stands_apart(text: Seq<char>, pos: nat, added: Seq<char>) -> bool {
    let new = cluster::with_inserted(text, pos, added);
    let n = cluster::cluster_count(added);
    &&& cluster::boundary(new, pos) == cluster::boundary(text, pos)
    &&& cluster::boundary(new, pos + n) == cluster::boundary(text, pos) + added.len()
}

/// Taking back an insertion that stands apart gives the text from before it.
pub proof fn law_revert_insertion(line: LineState, added: Seq<char>)
    requires
        line.wf(),
        stands_apart(line.text, line.cursor, added),
    ensures
        ({
            let new = LineState {
                text: cluster::with_inserted(line.text, line.cursor, added),
                ..line
            };
            new.reverted(undo::UndoAction::Insert { pos: line.cursor, text: added }) == line
        }),
{
    let text = line.text;
    let at = cluster::boundary(text, line.cursor);
    let new = cluster::with_inserted(text, line.cursor, added);
    cluster::lemma_boundaries(text, line.cursor, line.cursor);
    assert(new.take(at) + new.skip(at + added.len()) =~= text);
}

/// Undo right after an insertion that stands apart, and that did not join the
/// entry of an earlier one, restores the line completely: its text, cursor,
/// mark and undo log.
pub proof fn law_undo_insert(line: LineState, added: Seq<char>)
    requires
        line.wf(),
        added.len() > 0,
        stands_apart(line.text, line.cursor, added),
        !line.log.continues(undo::UndoAction::Insert { pos: line.cursor, text: added }),
    ensures
        line.inserted(added).undone() == line,
{
    let action = undo::UndoAction::Insert { pos: line.cursor, text: added };
    let new = line.inserted(added);
    lemma_undo_single(new, line.log, action);
    law_revert_insertion(line, added);
    assert(new.undone() == new.with_log(line.log).reverted(action));
}

/// Typing `more` right behind `run` leaves the same line, with the same undo
/// entry, as typing both at once: so one undo takes back the whole run.
pub proof fn law_typing_joins(line: LineState, run: Seq<char>, more: Seq<char>)
    requires
        line.wf(),
        cluster::segmented(run),
        run.len() > 0,
        more.len() > 0,
        stands_apart(line.text, line.cursor, run),
        line.cursor + cluster::cluster_count(run) <= line.inserted(run).count(),
        cluster::cluster_count(run + more) == cluster::cluster_count(run) + 1,
        !line.log.continues(undo::UndoAction::Insert { pos: line.cursor, text: run }),
        line.inserted(run).log.continues(
            undo::UndoAction::Insert {
                pos: line.cursor + cluster::cluster_count(run),
                text: more,
            },
        ),
    ensures
        line.inserted(run).inserted(more) == line.inserted(run + more),
{
    let text = line.text;
    let at = cluster::boundary(text, line.cursor);
    let one = line.inserted(run);
    let two = one.inserted(more);
    cluster::lemma_boundaries(text, line.cursor, line.cursor);
    cluster::lemma_count(run);
    assert(one.cursor == line.cursor + cluster::cluster_count(run));
    assert(two.text =~= line.inserted(run + more).text) by {
        assert(one.text.take(at + run.len()) =~= text.take(at) + run);
        assert(one.text.skip(at + run.len()) =~= text.skip(at));
    }
    let first = undo::UndoAction::Insert { pos: line.cursor, text: run };
    let both = undo::UndoAction::Insert { pos: line.cursor, text: run + more };
    assert(!line.log.continues(both));
    assert(one.log.actions.drop_last() =~= line.log.actions);
    assert(two.log.actions =~= line.log.actions.push(both));
}

/// Undo right after a deletion gives the deleted text back, where the texts on
/// the two sides of the gap did not run together into one cluster. The cursor
/// then stands behind the restored text, and the undo log is as before.
pub proof fn law_undo_delete(line: LineState, pos: nat, n: nat)
    requires
        line.wf(),
        0 < n,
        pos + n <= line.count(),
        cluster::boundary(cluster::without_range(line.text, pos, pos + n), pos)
            == cluster::boundary(line.text, pos),
    ensures
        ({
            let back = line.deleted(pos, n).undone();
            let removed = cluster::range_text(line.text, pos, pos + n);
            &&& back.text == line.text
            &&& back.log == line.log
            &&& back.cursor == crate::readline::line_buffer::capped(
                pos + cluster::cluster_count(removed),
                line.count(),
            )
        }),
{
    let text = line.text;
    let removed = cluster::range_text(text, pos, pos + n);
    let action = undo::UndoAction::Delete { pos, text: removed };
    let new = line.deleted(pos, n);
    lemma_undo_single(new, line.log, action);
    cluster::lemma_boundaries(text, pos, pos + n);
    let at = cluster::boundary(text, pos);
    assert(new.text.take(at) + removed + new.text.skip(at) =~= text);
}

/// Undo of a log whose last action is a single edit takes back that edit.
proof fn lemma_undo_single(line: LineState, log: undo::UndoLog, action: undo::UndoAction)
    requires
        undo::is_edit(action),
        line.log == (undo::UndoLog { actions: log.actions.push(action), depth: log.depth }),
    ensures
        line.undone() == line.with_log(log).reverted(action),
{
    let set = line.log.undo_set();
    assert(line.log.popped().actions =~= log.actions);
    assert(set =~= seq![action]);
    assert(set.drop_last() =~= Seq::<undo::UndoAction>::empty());
    let mid = line.with_log(log).reverted(action);
    assert(mid.reverted_all(set.drop_last()) == mid);
}

// ---------------------------------------------------------------------
// Undoing a group
// ---------------------------------------------------------------------

/// `true` when every group that is begun in `body` is ended in it and the
/// other way round, where `depth - 1` group ends were met behind it.
pub open spec fn closed_body(body: Seq<undo::UndoAction>, depth: nat) -> bool
    decreases body.len(),
{
    if body.len() == 0 {
        depth == 1
    } else {
        match body.last() {
            undo::UndoAction::GroupBegin => depth > 1 && closed_body(
                body.drop_last(),
                (depth - 1) as nat,
            ),
            undo::UndoAction::GroupEnd => closed_body(body.drop_last(), depth + 1),
            _ => closed_body(body.drop_last(), depth),
        }
    }
}

/// The log in which `body` was recorded as one group on top of `base`.
pub open spec fn grouped(base: undo::UndoLog, body: Seq<undo::UndoAction>) -> undo::UndoLog {
    undo::UndoLog {
        actions: base.actions.push(undo::UndoAction::GroupBegin) + body
            + seq![undo::UndoAction::GroupEnd],
        depth: base.depth,
    }
}

/// The next undo after a group takes back every edit of the group, those of
/// groups nested in it too, and nothing else.
pub proof fn law_undo_set_of_group(base: undo::UndoLog, body: Seq<undo::UndoAction>)
    requires
        closed_body(body, 1),
    ensures
        grouped(base, body).undo_set() == undo::edits_of(body),
        grouped(base, body).popped() == base,
{
    let log = grouped(base, body);
    let opened = base.actions.push(undo::UndoAction::GroupBegin);
    assert(log.actions.drop_last() =~= opened + body);
    lemma_group_floor(base.actions, body, 1);
    assert(log.kept() == base.actions.len());
    assert(log.popped().actions =~= base.actions);
    let taken = log.actions.skip(base.actions.len() as int);
    let begin = seq![undo::UndoAction::GroupBegin];
    assert(taken.drop_last() =~= begin + body);
    lemma_edits_concat(begin, body);
    assert(begin.drop_last() =~= Seq::<undo::UndoAction>::empty());
    assert(undo::edits_of(begin.drop_last()) =~= Seq::<undo::UndoAction>::empty());
    assert(undo::edits_of(begin) =~= Seq::<undo::UndoAction>::empty());
    assert(undo::edits_of(taken) =~= undo::edits_of(body));
}

/// The floor of a closed body is what stands before the group.
proof fn lemma_group_floor(
    base: Seq<undo::UndoAction>,
    body: Seq<undo::UndoAction>,
    depth: nat,
)
    requires
        closed_body(body, depth),
        depth > 0,
    ensures
        undo::group_floor(base.push(undo::UndoAction::GroupBegin) + body, depth) == base.len(),
    decreases body.len(),
{
    let opened = base.push(undo::UndoAction::GroupBegin);
    let all = opened + body;
    if body.len() == 0 {
        assert(all =~= opened);
        assert(opened.drop_last() =~= base);
        assert(undo::group_floor(base, 0) == base.len());
    } else {
        assert(all.drop_last() =~= opened + body.drop_last());
        match body.last() {
            undo::UndoAction::GroupBegin => {
                lemma_group_floor(base, body.drop_last(), (depth - 1) as nat);
            },
            undo::UndoAction::GroupEnd => {
                lemma_group_floor(base, body.drop_last(), depth + 1);
            },
            _ => {
                lemma_group_floor(base, body.drop_last(), depth);
            },
        }
    }
}

/// The edits of two parts are those of the one and then the other.
proof fn lemma_edits_concat(a: Seq<undo::UndoAction>, b: Seq<undo::UndoAction>)
    ensures
        undo::edits_of(a + b) == undo::edits_of(a) + undo::edits_of(b),
    decreases b.len(),
{
    if b.len() == 0 {
        assert(a + b =~= a);
        assert(undo::edits_of(a) + undo::edits_of(b) =~= undo::edits_of(a));
    } else {
        assert((a + b).drop_last() =~= a + b.drop_last());
        lemma_edits_concat(a, b.drop_last());
        assert(undo::edits_of(a + b) =~= undo::edits_of(a) + undo::edits_of(b));
    }
}

/// `true` when `edits[i]`, taken back on `texts[i + 1]`, gives `texts[i]`.
pub open spec fn each_reverts(texts: Seq<Seq<char>>, edits: Seq<undo::UndoAction>) -> bool {
    &&& texts.len() == edits.len() + 1
    &&& forall|i: int, line: LineState|
        0 <= i < edits.len() && line.text == texts[i + 1] ==> (#[trigger] line.reverted(
            edits[i],
        )).text == texts[i]
}

/// Taking back edits, the last one first, undoes them all, where each one can
/// be undone by itself.
pub proof fn law_revert_all(line: LineState, texts: Seq<Seq<char>>, edits: Seq<undo::UndoAction>)
    requires
        each_reverts(texts, edits),
        line.text == texts.last(),
    ensures
        line.reverted_all(edits).text == texts[0],
        line.reverted_all(edits).log == line.log,
        line.reverted_all(edits).mark == line.mark,
    decreases edits.len(),
{
    if edits.len() > 0 {
        let k = edits.len() - 1;
        let next = line.reverted(edits.last());
        assert(edits[k] == edits.last());
        assert(next.text == texts[k]);
        let fewer = texts.drop_last();
        assert(fewer.last() == texts[k]);
        assert forall|i: int, other: LineState|
            0 <= i < edits.drop_last().len() && other.text == fewer[i + 1] implies (
        #[trigger] other.reverted(edits.drop_last()[i])).text == fewer[i] by {
            assert(other.text == texts[i + 1]);
            assert(other.reverted(edits[i]).text == texts[i]);
        }
        law_revert_all(next, fewer, edits.drop_last());
    }
}

/// Undo right after a group gives the text from before the group, where each
/// edit of it can be undone by itself.
pub proof fn law_undo_group(
    line: LineState,
    base: undo::UndoLog,
    body: Seq<undo::UndoAction>,
    texts: Seq<Seq<char>>,
)
    requires
        closed_body(body, 1),
        line.log == grouped(base, body),
        each_reverts(texts, undo::edits_of(body)),
        line.text == texts.last(),
    ensures
        line.undone().text == texts[0],
        line.undone().log == base,
{
    law_undo_set_of_group(base, body);
    law_revert_all(line.with_log(base), texts, undo::edits_of(body));
}

/// An edit of a line: text put in with the cursor at `pos`, `n` clusters deleted
/// from `pos` on, or the clusters `pos - 1` and `pos` swapped.
pub enum Edit {
    Insert { pos: nat, text: Seq<char> },
    Delete { pos: nat, n: nat },
    Transpose { pos: nat },
}

impl Edit {
    /// `true` when the edit can be made on the line and changes it.
    pub open spec fn fits(self, line: LineState) -> bool {
        &&& line.wf()
        &&& match self {
            Edit::Insert { pos, text } => pos <= line.count() && text.len() > 0,
            Edit::Delete { pos, n } => 0 < n && pos + n <= line.count(),
            Edit::Transpose { pos } => 0 < pos < line.count(),
        }
    }

    /// The line once the edit was made.
    pub open spec fn applied(self, line: LineState) -> LineState {
        match self {
            Edit::Insert { pos, text } => line.at(pos).inserted(text),
            Edit::Delete { pos, n } => line.deleted(pos, n),
            Edit::Transpose { pos } => line.transposed(pos),
        }
    }

    /// What the undo log records of the edit.
    pub open spec fn recorded(self, line: LineState) -> Seq<undo::UndoAction> {
        match self {
            Edit::Insert { pos, text } => seq![undo::UndoAction::Insert { pos, text }],
            Edit::Delete { pos, n } => seq![
                undo::UndoAction::Delete {
                    pos,
                    text: cluster::range_text(line.text, pos, pos + n),
                },
            ],
            Edit::Transpose { pos } => {
                let first = cluster::grapheme_clusters(line.text)[pos - 1];
                let second = cluster::grapheme_clusters(line.text)[pos as int];
                let before = (pos - 1) as nat;
                seq![
                    undo::UndoAction::GroupBegin,
                    undo::UndoAction::Delete { pos: before, text: first + second },
                    undo::UndoAction::Insert { pos: before, text: second + first },
                    undo::UndoAction::GroupEnd,
                ]
            },
        }
    }

    /// `true` when the edit, made on this line, does not join the entry of an
    /// earlier one.
    pub open spec fn recorded_apart(self, line: LineState) -> bool {
        self is Insert ==> !line.log.continues(self.recorded(line)[0])
    }

    /// `true` when the edit can be taken back by itself: what it puts in stands
    /// apart, and what it takes out does not let the texts on its two sides run
    /// together into one cluster.
    pub open spec fn undoable(self, line: LineState) -> bool {
        &&& self.fits(line)
        &&& match self {
            Edit::Insert { pos, text } => stands_apart(line.text, pos, text),
            Edit::Delete { pos, n } => cluster::boundary(
                cluster::without_range(line.text, pos, pos + n),
                pos,
            ) == cluster::boundary(line.text, pos),
            Edit::Transpose { pos } => swaps_apart(line.text, pos),
        }
    }

    /// `true` when the edit puts in nothing but printable ASCII.
    pub open spec fn plain(self) -> bool {
        self matches Edit::Insert { text, .. } ==> cluster::plain(text)
    }
}

/// `true` when the clusters `pos - 1` and `pos` of `text`, swapped, stand apart,
/// and the texts on their two sides do not run together without them.
pub open spec fn swaps_apart(text: Seq<char>, pos: nat) -> bool {
    let before = (pos - 1) as nat;
    let rest = cluster::without_range(text, before, pos + 1);
    let first = cluster::grapheme_clusters(text)[pos - 1];
    let second = cluster::grapheme_clusters(text)[pos as int];
    &&& cluster::boundary(rest, before) == cluster::boundary(text, before)
    &&& stands_apart(rest, before, second + first)
}

/// The line once all `edits` were made, in order.
pub open spec fn applied_all(line: LineState, edits: Seq<Edit>) -> LineState
    decreases edits.len(),
{
    if edits.len() == 0 {
        line
    } else {
        edits.last().applied(applied_all(line, edits.drop_last()))
    }
}

/// What the undo log records of the edits.
pub open spec fn recorded_all(line: LineState, edits: Seq<Edit>) -> Seq<undo::UndoAction>
    decreases edits.len(),
{
    if edits.len() == 0 {
        Seq::empty()
    } else {
        recorded_all(line, edits.drop_last()) + edits.last().recorded(
            applied_all(line, edits.drop_last()),
        )
    }
}

/// `true` when each edit, made after those before it, can be taken back by
/// itself.
pub open spec fn undoable_all(line: LineState, edits: Seq<Edit>) -> bool
    decreases edits.len(),
{
    edits.len() > 0 ==> {
        &&& undoable_all(line, edits.drop_last())
        &&& edits.last().undoable(applied_all(line, edits.drop_last()))
    }
}

/// The edits that are recorded of a single edit.
proof fn lemma_recorded_edits(line: LineState, edit: Edit)
    ensures
        closed_body(edit.recorded(line), 1),
        edit is Transpose || undo::edits_of(edit.recorded(line)) == edit.recorded(line),
        edit is Transpose ==> undo::edits_of(edit.recorded(line)) == seq![
            edit.recorded(line)[1],
            edit.recorded(line)[2],
        ],
{
    let all = edit.recorded(line);
    let none = Seq::<undo::UndoAction>::empty();
    assert(undo::edits_of(none) =~= none);
    assert(closed_body(none, 1));
    if edit is Transpose {
        let three = all.drop_last();
        let two = three.drop_last();
        let one = two.drop_last();
        assert(one.drop_last() =~= none);
        assert(undo::edits_of(one) =~= none);
        assert(undo::edits_of(two) =~= seq![all[1]]);
        assert(undo::edits_of(three) =~= seq![all[1], all[2]]);
        assert(closed_body(one, 2));
        assert(closed_body(two, 2));
        assert(closed_body(three, 2));
    } else {
        assert(all.drop_last() =~= none);
        assert(undo::edits_of(all) =~= all);
    }
}

/// Two closed bodies put together are closed.
proof fn lemma_closed_concat(a: Seq<undo::UndoAction>, b: Seq<undo::UndoAction>, depth: nat)
    requires
        closed_body(a, 1),
        closed_body(b, depth),
    ensures
        closed_body(a + b, depth),
    decreases b.len(),
{
    if b.len() == 0 {
        assert(a + b =~= a);
    } else {
        let rest = b.drop_last();
        assert((a + b).drop_last() =~= a + rest);
        match b.last() {
            undo::UndoAction::GroupBegin => {
                lemma_closed_concat(a, rest, (depth - 1) as nat);
            },
            undo::UndoAction::GroupEnd => {
                lemma_closed_concat(a, rest, depth + 1);
            },
            _ => {
                lemma_closed_concat(a, rest, depth);
            },
        }
    }
}

/// Taking back two rows of actions takes back the second row and then the first,
/// and meets the same texts.
proof fn lemma_reverted_concat(
    line: LineState,
    a: Seq<undo::UndoAction>,
    b: Seq<undo::UndoAction>,
)
    ensures
        line.reverted_all(a + b) == line.reverted_all(b).reverted_all(a),
        line.settles(a + b) ==> line.settles(b) && line.reverted_all(b).settles(a),
    decreases b.len(),
{
    if b.len() == 0 {
        assert(a + b =~= a);
    } else {
        assert((a + b).drop_last() =~= a + b.drop_last());
        lemma_reverted_concat(line.reverted(b.last()), a, b.drop_last());
    }
}

/// Taking back an edit on the text that it left gives the text from before it.
proof fn lemma_edit_reverts(line: LineState, edit: Edit, later: LineState)
    requires
        edit.undoable(line),
        later.text == edit.applied(line).text,
    ensures
        ({
            let back = later.reverted_all(undo::edits_of(edit.recorded(line)));
            &&& back.text == line.text
            &&& back.log == later.log
            &&& back.mark == later.mark
        }),
{
    let text = line.text;
    let none = Seq::<undo::UndoAction>::empty();
    let made = undo::edits_of(edit.recorded(line));
    lemma_recorded_edits(line, edit);
    match edit {
        Edit::Insert { pos, text: added } => {
            let at = cluster::boundary(text, pos);
            cluster::lemma_boundaries(text, pos, pos);
            assert(later.text.take(at) + later.text.skip(at + added.len()) =~= text);
            assert(made.drop_last() =~= none);
            assert(later.reverted(made.last()).reverted_all(none) == later.reverted(made.last()));
        },
        Edit::Delete { pos, n } => {
            let at = cluster::boundary(text, pos);
            let removed = cluster::range_text(text, pos, pos + n);
            cluster::lemma_boundaries(text, pos, pos + n);
            assert(later.text.take(at) + removed + later.text.skip(at) =~= text);
            assert(made.drop_last() =~= none);
            assert(later.reverted(made.last()).reverted_all(none) == later.reverted(made.last()));
        },
        Edit::Transpose { pos } => {
            let before = (pos - 1) as nat;
            let first = cluster::grapheme_clusters(text)[pos - 1];
            let second = cluster::grapheme_clusters(text)[pos as int];
            let rest = cluster::without_range(text, before, pos + 1);
            let mid = later.reverted(made.last());
            lemma_transposed_text(line, pos);
            let a = cluster::boundary(text, before);
            assert(later.text.take(a) + later.text.skip(a + (second + first).len()) =~= rest);
            assert(rest.take(a) + (first + second) + rest.skip(a) =~= text);
            assert(made.drop_last() =~= seq![made[0]]);
            assert(made.drop_last().drop_last() =~= none);
            assert(mid.reverted(made[0]).reverted_all(none) == mid.reverted(made[0]));
            assert(mid.reverted_all(made.drop_last()) == mid.reverted(made[0]));
        },
    }
}

/// How a transposed text is made up.
proof fn lemma_transposed_text(line: LineState, pos: nat)
    requires
        line.wf(),
        0 < pos < line.count(),
    ensures
        ({
            let text = line.text;
            let first = cluster::grapheme_clusters(text)[pos - 1];
            let second = cluster::grapheme_clusters(text)[pos as int];
            let rest = cluster::without_range(text, (pos - 1) as nat, pos + 1);
            let a = cluster::boundary(text, (pos - 1) as nat);
            let b = cluster::boundary(text, pos + 1);
            &&& 0 <= a <= b <= text.len()
            &&& text.subrange(a, b) == first + second
            &&& rest.take(a) == text.take(a)
            &&& rest.skip(a) == text.skip(b)
            &&& line.transposed(pos).text == rest.take(a) + (second + first) + rest.skip(a)
        }),
{
    let text = line.text;
    let before = (pos - 1) as nat;
    let first = cluster::grapheme_clusters(text)[pos - 1];
    let second = cluster::grapheme_clusters(text)[pos as int];
    let rest = cluster::without_range(text, before, pos + 1);
    cluster::lemma_boundaries(text, before, pos);
    cluster::lemma_boundaries(text, pos, pos + 1);
    cluster::lemma_one_cluster(text, before);
    cluster::lemma_one_cluster(text, pos);
    let a = cluster::boundary(text, before);
    let b = cluster::boundary(text, pos + 1);
    assert(text.subrange(a, b) =~= first + second);
    assert(rest.take(a) =~= text.take(a));
    assert(rest.skip(a) =~= text.skip(b));
}

/// Taking back recorded edits, the last one first, gives the text from before
/// them.
proof fn lemma_edits_revert(line: LineState, edits: Seq<Edit>, later: LineState)
    requires
        undoable_all(line, edits),
        later.text == applied_all(line, edits).text,
    ensures
        ({
            let back = later.reverted_all(undo::edits_of(recorded_all(line, edits)));
            &&& back.text == line.text
            &&& back.log == later.log
            &&& back.mark == later.mark
        }),
    decreases edits.len(),
{
    if edits.len() > 0 {
        let front = edits.drop_last();
        let before = applied_all(line, front);
        let early = undo::edits_of(recorded_all(line, front));
        let late = undo::edits_of(edits.last().recorded(before));
        lemma_edits_concat(recorded_all(line, front), edits.last().recorded(before));
        lemma_reverted_concat(later, early, late);
        lemma_edit_reverts(before, edits.last(), later);
        lemma_edits_revert(line, front, later.reverted_all(late));
    }
}

/// An edit that joins no earlier entry is recorded as it is.
proof fn lemma_edit_recorded(line: LineState, edit: Edit)
    requires
        edit.fits(line),
        edit.recorded_apart(line),
    ensures
        edit.applied(line).log == (undo::UndoLog {
            actions: line.log.actions + edit.recorded(line),
            depth: line.log.depth,
        }),
{
    assert(edit.applied(line).log.actions =~= line.log.actions + edit.recorded(line));
}

/// Inside a group every edit is recorded by itself.
proof fn lemma_edits_recorded(line: LineState, edits: Seq<Edit>)
    requires
        fit_all(line, edits),
        line.log.depth > 0,
    ensures
        applied_all(line, edits).log == (undo::UndoLog {
            actions: line.log.actions + recorded_all(line, edits),
            depth: line.log.depth,
        }),
        closed_body(recorded_all(line, edits), 1),
    decreases edits.len(),
{
    if edits.len() == 0 {
        assert(line.log.actions + recorded_all(line, edits) =~= line.log.actions);
    } else {
        let front = edits.drop_last();
        let before = applied_all(line, front);
        let early = recorded_all(line, front);
        let late = edits.last().recorded(before);
        lemma_edits_recorded(line, front);
        lemma_edit_recorded(before, edits.last());
        lemma_recorded_edits(before, edits.last());
        lemma_closed_concat(early, late, 1);
        assert(line.log.actions + early + late =~= line.log.actions + recorded_all(line, edits));
    }
}

/// `true` when each edit can be made after those before it.
pub open spec fn fit_all(line: LineState, edits: Seq<Edit>) -> bool
    decreases edits.len(),
{
    edits.len() > 0 ==> {
        &&& fit_all(line, edits.drop_last())
        &&& edits.last().fits(applied_all(line, edits.drop_last()))
    }
}

/// Edits that can be taken back can be made.
proof fn lemma_undoable_fit(line: LineState, edits: Seq<Edit>)
    requires
        undoable_all(line, edits),
    ensures
        fit_all(line, edits),
    decreases edits.len(),
{
    if edits.len() > 0 {
        lemma_undoable_fit(line, edits.drop_last());
    }
}

/// The line after a group of edits: the group is begun, the edits are made, and
/// the group is ended.
pub open spec fn after_group(line: LineState, edits: Seq<Edit>) -> LineState {
    let done = applied_all(line.with_log(line.log.begin_group()), edits);
    done.with_log(done.log.end_group())
}

/// The undo set of a group of edits.
proof fn lemma_after_group(line: LineState, edits: Seq<Edit>)
    requires
        fit_all(line.with_log(line.log.begin_group()), edits),
    ensures
        ({
            let begun = line.with_log(line.log.begin_group());
            let log = after_group(line, edits).log;
            &&& log.undo_set() == undo::edits_of(recorded_all(begun, edits))
            &&& log.popped() == line.log
        }),
{
    let begun = line.with_log(line.log.begin_group());
    let ended = after_group(line, edits);
    let body = recorded_all(begun, edits);
    lemma_edits_recorded(begun, edits);
    assert(ended.log.actions =~= grouped(line.log, body).actions);
    law_undo_set_of_group(line.log, body);
}

/// Undo right after a group of edits gives the text and the undo log from before
/// the group, where each edit of it can be taken back by itself.
pub proof fn law_undo_grouped_edits(line: LineState, edits: Seq<Edit>)
    requires
        undoable_all(line.with_log(line.log.begin_group()), edits),
    ensures
        ({
            let ended = after_group(line, edits);
            &&& ended.undone().text == line.text
            &&& ended.undone().log == line.log
            &&& ended.undone().mark == ended.mark
        }),
{
    let begun = line.with_log(line.log.begin_group());
    lemma_undoable_fit(begun, edits);
    lemma_after_group(line, edits);
    lemma_edits_revert(begun, edits, after_group(line, edits).with_log(line.log));
}

/// The undo set of a single edit.
proof fn lemma_undo_set(line: LineState, edit: Edit)
    requires
        edit.fits(line),
        edit.recorded_apart(line),
    ensures
        edit.applied(line).log.undo_set() == undo::edits_of(edit.recorded(line)),
        edit.applied(line).log.popped() == line.log,
{
    let all = edit.recorded(line);
    let new = edit.applied(line);
    lemma_edit_recorded(line, edit);
    lemma_recorded_edits(line, edit);
    if edit is Transpose {
        let body = seq![all[1], all[2]];
        let none = Seq::<undo::UndoAction>::empty();
        assert(new.log.actions =~= grouped(line.log, body).actions);
        assert(body.drop_last() =~= seq![all[1]]);
        assert(body.drop_last().drop_last() =~= none);
        assert(closed_body(none, 1));
        assert(closed_body(body.drop_last(), 1));
        assert(undo::edits_of(none) =~= none);
        assert(undo::edits_of(body.drop_last()) =~= seq![all[1]]);
        assert(undo::edits_of(body) =~= body);
        law_undo_set_of_group(line.log, body);
    } else {
        assert(new.log.popped().actions =~= line.log.actions);
        assert(new.log.undo_set() =~= all);
    }
}

/// Undo right after an edit gives the text and the undo log from before it, where
/// the edit joined no earlier entry and can be taken back by itself.
pub proof fn law_undo_edit(line: LineState, edit: Edit)
    requires
        edit.undoable(line),
        edit.recorded_apart(line),
    ensures
        edit.applied(line).undone().text == line.text,
        edit.applied(line).undone().log == line.log,
{
    lemma_undo_set(line, edit);
    lemma_edit_reverts(line, edit, edit.applied(line).with_log(line.log));
}

// ---------------------------------------------------------------------
// Printable ASCII
// ---------------------------------------------------------------------

/// `true` when each edit puts in nothing but printable ASCII.
pub open spec fn all_plain(edits: Seq<Edit>) -> bool {
    forall|i: int| 0 <= i < edits.len() ==> (#[trigger] edits[i]).plain()
}

/// A printable ASCII line stays one under edits that put in no other text.
proof fn lemma_edit_keeps_plain(line: LineState, edit: Edit)
    requires
        edit.fits(line),
        edit.plain(),
        cluster::plain(line.text),
    ensures
        cluster::plain(edit.applied(line).text),
{
    match edit {
        Edit::Insert { pos, .. } => {
            cluster::lemma_boundaries(line.text, pos, pos);
        },
        Edit::Delete { pos, n } => {
            cluster::lemma_boundaries(line.text, pos, pos + n);
        },
        Edit::Transpose { pos } => {
            let text = line.text;
            let first = cluster::grapheme_clusters(text)[pos - 1];
            let second = cluster::grapheme_clusters(text)[pos as int];
            lemma_transposed_text(line, pos);
            let a = cluster::boundary(text, (pos - 1) as nat);
            let b = cluster::boundary(text, pos + 1);
            let pair = text.subrange(a, b);
            assert(cluster::plain(pair));
            assert forall|i: int| 0 <= i < first.len() implies ' ' <= #[trigger] first[i]
                <= '~' by {
                assert(pair[i] == first[i]);
            }
            assert forall|i: int| 0 <= i < second.len() implies ' ' <= #[trigger] second[i]
                <= '~' by {
                assert(pair[first.len() + i] == second[i]);
            }
            assert(cluster::plain(text.take(a)));
            assert(cluster::plain(text.skip(b)));
            assert(cluster::plain(second + first));
        },
    }
}

/// A printable ASCII line stays one under a row of such edits.
proof fn lemma_edits_keep_plain(line: LineState, edits: Seq<Edit>)
    requires
        fit_all(line, edits),
        all_plain(edits),
        cluster::plain(line.text),
    ensures
        cluster::plain(applied_all(line, edits).text),
    decreases edits.len(),
{
    if edits.len() > 0 {
        let front = edits.drop_last();
        assert forall|i: int| 0 <= i < front.len() implies (#[trigger] front[i]).plain() by {
            assert(front[i] == edits[i]);
        }
        lemma_edits_keep_plain(line, front);
        assert(edits[edits.len() - 1].plain());
        lemma_edit_keeps_plain(applied_all(line, front), edits.last());
    }
}

/// In printable ASCII every edit can be taken back by itself.
proof fn lemma_plain_undoable(line: LineState, edit: Edit, later: LineState)
    requires
        edit.fits(line),
        edit.plain(),
        cluster::plain(line.text),
        later.text == edit.applied(line).text,
        later.settles(undo::edits_of(edit.recorded(line))),
    ensures
        edit.undoable(line),
{
    let text = line.text;
    let made = undo::edits_of(edit.recorded(line));
    lemma_edit_keeps_plain(line, edit);
    lemma_recorded_edits(line, edit);
    match edit {
        Edit::Insert { pos, text: added } => {
            let n = added.len();
            assert(crate::readline::line_buffer::settled(made.last()));
            cluster::lemma_plain_boundary(text, pos);
            cluster::lemma_plain_boundary(later.text, pos);
            cluster::lemma_plain_boundary(later.text, pos + n);
        },
        Edit::Delete { pos, n } => {
            cluster::lemma_plain_boundary(text, pos);
            cluster::lemma_plain_boundary(text, pos + n);
            cluster::lemma_plain_boundary(later.text, pos);
        },
        Edit::Transpose { pos } => {
            let before = (pos - 1) as nat;
            let first = cluster::grapheme_clusters(text)[pos - 1];
            let second = cluster::grapheme_clusters(text)[pos as int];
            let swapped = second + first;
            let rest = cluster::without_range(text, before, pos + 1);
            lemma_transposed_text(line, pos);
            cluster::lemma_plain_boundary(text, before);
            cluster::lemma_plain_boundary(text, pos + 1);
            assert(crate::readline::line_buffer::settled(made.last()));
            assert(text.subrange(before as int, pos as int + 1).len() == 2);
            assert forall|i: int| 0 <= i < swapped.len() implies ' ' <= #[trigger] swapped[i]
                <= '~' by {
                assert(later.text[before + i] == swapped[i]);
            }
            cluster::lemma_plain_boundary(later.text, before);
            cluster::lemma_plain_boundary(later.text, pos + 1);
            let mid = later.reverted(made.last());
            assert(mid.text =~= rest);
            assert(mid.settles(made.drop_last()));
            assert(cluster::plain(rest));
            cluster::lemma_plain_boundary(rest, before);
            assert(cluster::with_inserted(rest, before, swapped) =~= later.text);
        },
    }
}

/// In printable ASCII every edit of a row can be taken back by itself.
proof fn lemma_plain_undoable_all(line: LineState, edits: Seq<Edit>, later: LineState)
    requires
        fit_all(line, edits),
        all_plain(edits),
        cluster::plain(line.text),
        later.text == applied_all(line, edits).text,
        later.settles(undo::edits_of(recorded_all(line, edits))),
    ensures
        undoable_all(line, edits),
    decreases edits.len(),
{
    if edits.len() > 0 {
        let front = edits.drop_last();
        let before = applied_all(line, front);
        let early = undo::edits_of(recorded_all(line, front));
        let late = undo::edits_of(edits.last().recorded(before));
        assert forall|i: int| 0 <= i < front.len() implies (#[trigger] front[i]).plain() by {
            assert(front[i] == edits[i]);
        }
        assert(edits[edits.len() - 1].plain());
        lemma_edits_keep_plain(line, front);
        lemma_edits_concat(recorded_all(line, front), edits.last().recorded(before));
        lemma_reverted_concat(later, early, late);
        lemma_plain_undoable(before, edits.last(), later);
        lemma_edit_reverts(before, edits.last(), later);
        lemma_plain_undoable_all(line, front, later.reverted_all(late));
    }
}

/// In printable ASCII, undo right after any edit that joined no earlier entry
/// gives the text and the undo log from before it: where that log was empty,
/// nothing is left to undo.
///
/// `settles` is what `LineBuffer::undo` ensures of the texts that it meets.
pub proof fn law_undo_plain_edit(line: LineState, edit: Edit)
    requires
        edit.fits(line),
        edit.plain(),
        edit.recorded_apart(line),
        cluster::plain(line.text),
        ({
            let new = edit.applied(line);
            new.with_log(new.log.popped()).settles(new.log.undo_set())
        }),
    ensures
        edit.applied(line).undone().text == line.text,
        edit.applied(line).undone().log == line.log,
{
    let new = edit.applied(line);
    lemma_undo_set(line, edit);
    lemma_plain_undoable(line, edit, new.with_log(new.log.popped()));
    law_undo_edit(line, edit);
}

/// In printable ASCII, undo right after a group of any edits gives the text and
/// the undo log from before the group: where that log was empty, nothing is left
/// to undo.
///
/// `settles` is what `LineBuffer::undo` ensures of the texts that it meets.
pub proof fn law_undo_plain_group(line: LineState, edits: Seq<Edit>)
    requires
        fit_all(line.with_log(line.log.begin_group()), edits),
        all_plain(edits),
        cluster::plain(line.text),
        ({
            let ended = after_group(line, edits);
            ended.with_log(ended.log.popped()).settles(ended.log.undo_set())
        }),
    ensures
        after_group(line, edits).undone().text == line.text,
        after_group(line, edits).undone().log == line.log,
{
    let begun = line.with_log(line.log.begin_group());
    let ended = after_group(line, edits);
    lemma_after_group(line, edits);
    lemma_plain_undoable_all(begun, edits, ended.with_log(ended.log.popped()));
    law_undo_grouped_edits(line, edits);
}

/// In printable ASCII positions are character positions: an insertion moves the
/// cursor by the characters put in, and a deletion moves a cursor behind the gap
/// by the characters taken out.
pub proof fn law_plain_positions(line: LineState, edit: Edit)
    requires
        edit.fits(line),
        edit.plain(),
        cluster::plain(line.text),
        edit.applied(line).wf(),
        edit matches Edit::Insert { text, .. } ==> cluster::segmented(text),
    ensures
        edit.applied(line).count() == edit.applied(line).text.len(),
        edit matches Edit::Insert { pos, text } ==> edit.applied(line).cursor == pos + text.len(),
        edit matches Edit::Delete { pos, n } ==> edit.applied(line).cursor
            == crate::readline::line_buffer::shifted(line.cursor, pos, n),
        edit matches Edit::Transpose { pos } ==> edit.applied(line).cursor == pos + 1,
{
    lemma_edit_keeps_plain(line, edit);
    match edit {
        Edit::Insert { pos, .. } => {
            cluster::lemma_boundaries(line.text, pos, pos);
            cluster::lemma_plain_boundary(line.text, pos);
        },
        Edit::Delete { pos, n } => {
            cluster::lemma_plain_boundary(line.text, pos);
            cluster::lemma_plain_boundary(line.text, pos + n);
        },
        Edit::Transpose { pos } => {
            lemma_transposed_text(line, pos);
            cluster::lemma_plain_boundary(line.text, (pos - 1) as nat);
            cluster::lemma_plain_boundary(line.text, pos + 1);
        },
    }
}

// ---------------------------------------------------------------------
// Editing and motion
// ---------------------------------------------------------------------

/// A deletion cuts the line into what stands before the range, the deleted
/// text and what stands behind it, and leaves the first and the last.
pub proof fn law_delete_splits(line: LineState, pos: nat, n: nat)
    requires
        line.wf(),
        0 < n,
        pos + n <= line.count(),
    ensures
        ({
            let head = cluster::prefix_text(line.text, pos);
            let gone = cluster::range_text(line.text, pos, pos + n);
            let tail = line.text.skip(cluster::boundary(line.text, pos + n));
            &&& line.text == head + gone + tail
            &&& line.deleted(pos, n).text == head + tail
            &&& gone.len() > 0
        }),
{
    cluster::lemma_boundaries(line.text, pos, pos + n);
    let head = cluster::prefix_text(line.text, pos);
    let gone = cluster::range_text(line.text, pos, pos + n);
    let tail = line.text.skip(cluster::boundary(line.text, pos + n));
    assert(line.text =~= head + gone + tail);
}

/// Deleting what was just inserted returns it, and leaves the text and the cursor
/// as they were, where the insertion stands apart.
pub proof fn law_delete_inserted(line: LineState, added: Seq<char>)
    requires
        line.wf(),
        added.len() > 0,
        cluster::segmented(added),
        stands_apart(line.text, line.cursor, added),
        line.cursor + cluster::cluster_count(added) <= line.inserted(added).count(),
    ensures
        ({
            let new = line.inserted(added);
            let n = cluster::cluster_count(added);
            &&& cluster::range_text(new.text, line.cursor, line.cursor + n) == added
            &&& new.deleted(line.cursor, n).text == line.text
            &&& new.deleted(line.cursor, n).cursor == line.cursor
        }),
{
    let text = line.text;
    let at = cluster::boundary(text, line.cursor);
    let new = line.inserted(added).text;
    cluster::lemma_boundaries(text, line.cursor, line.cursor);
    cluster::lemma_count(added);
    assert(new.subrange(at, at + added.len()) =~= added);
    assert(new.take(at) + new.skip(at + added.len()) =~= text);
}

/// Moving forward and back by the same distance returns to where one was, as
/// long as the end of the line is not in the way.
pub proof fn law_move_there_and_back(line: LineState, n: nat)
    requires
        line.wf(),
        line.cursor + n <= line.count(),
    ensures
        ({
            let there = line.at(
                crate::readline::line_buffer::capped(line.cursor + n, line.count()),
            );
            there.at((there.cursor - n) as nat) == line
        }),
{
}

/// Exchanging cursor and mark twice changes nothing, where the mark lies within
/// the line.
pub proof fn law_exchange_twice(line: LineState)
    requires
        line.wf(),
        line.mark is Some,
        line.mark->0 <= line.count(),
    ensures
        line.exchanged().exchanged() == line,
{
}

/// Moving forward by a word skips clusters outside words and then clusters of a
/// word, never moves back, and stops at the end of the line or before a cluster
/// outside words.
pub proof fn law_forward_word(line: LineState)
    requires
        line.wf(),
    ensures
        ({
            let words = cluster::word_flags(cluster::grapheme_clusters(line.text));
            let start = cluster::run_end(words, line.cursor as int, false);
            let end = line.next_word_end();
            &&& line.cursor <= start <= end <= line.count()
            &&& forall|i: int| line.cursor <= i < start ==> !words[i]
            &&& forall|i: int| start <= i < end ==> words[i]
            &&& end < line.count() ==> !words[end as int]
            &&& start < line.count() ==> start < end
        }),
{
    let words = cluster::word_flags(cluster::grapheme_clusters(line.text));
    cluster::lemma_run_end(words, line.cursor as int, false);
    cluster::lemma_run_end(words, cluster::run_end(words, line.cursor as int, false), true);
}

/// Moving backward by a word skips clusters outside words and then clusters of
/// a word, never moves forward, and stops at the start of the line or behind a
/// cluster outside words.
pub proof fn law_backward_word(line: LineState)
    requires
        line.wf(),
    ensures
        ({
            let words = cluster::word_flags(cluster::grapheme_clusters(line.text));
            let end = cluster::run_start(words, line.cursor as int, false);
            let start = line.word_start();
            &&& 0 <= start <= end <= line.cursor
            &&& forall|i: int| end <= i < line.cursor ==> !words[i]
            &&& forall|i: int| start <= i < end ==> words[i]
            &&& start > 0 ==> !words[start - 1]
            &&& end > 0 ==> start < end
        }),
{
    let words = cluster::word_flags(cluster::grapheme_clusters(line.text));
    cluster::lemma_run_start(words, line.cursor as int, false);
    cluster::lemma_run_start(words, cluster::run_start(words, line.cursor as int, false), true);
}

/// The kill commands for words delete blanks and then one run of other
/// clusters, on the one side of the cursor or the other, and at least one
/// cluster where there is one.
pub proof fn law_kill_word(line: LineState)
    requires
        line.wf(),
    ensures
        ({
            let blanks = cluster::blank_flags(cluster::grapheme_clusters(line.text));
            let behind = cluster::run_start(blanks, line.cursor as int, true);
            let pos = line.after_blank();
            let ahead = cluster::run_end(blanks, line.cursor as int, true);
            let end = line.next_blank();
            &&& pos <= behind <= line.cursor <= ahead <= end <= line.count()
            &&& forall|i: int| behind <= i < ahead ==> blanks[i]
            &&& forall|i: int| pos <= i < behind || ahead <= i < end ==> !blanks[i]
            &&& pos > 0 ==> blanks[pos - 1]
            &&& end < line.count() ==> blanks[end as int]
            &&& line.cursor > 0 ==> pos < line.cursor
            &&& line.cursor < line.count() ==> line.cursor < end
        }),
{
    let blanks = cluster::blank_flags(cluster::grapheme_clusters(line.text));
    let behind = cluster::run_start(blanks, line.cursor as int, true);
    let ahead = cluster::run_end(blanks, line.cursor as int, true);
    cluster::lemma_run_start(blanks, line.cursor as int, true);
    cluster::lemma_run_start(blanks, behind, false);
    cluster::lemma_run_end(blanks, line.cursor as int, true);
    cluster::lemma_run_end(blanks, ahead, false);
}

// ---------------------------------------------------------------------
// Which insertions are undone together
// ---------------------------------------------------------------------

/// An insertion joins the last entry of the log exactly where that is an
/// insertion too, no group is open, one cluster is put in right behind the text
/// of the entry, and that has fewer than twenty clusters. Anything else becomes an
/// entry of its own.
pub proof fn law_log_entries(log: undo::UndoLog, p: nat, t: Seq<char>, q: nat, u: Seq<char>)
    requires
        log.actions.len() > 0,
        log.actions.last() == (undo::UndoAction::Insert { pos: p, text: t }),
    ensures
        ({
            let new = undo::UndoAction::Insert { pos: q, text: u };
            let gone = undo::UndoAction::Delete { pos: q, text: u };
            let joined = undo::UndoAction::Insert { pos: p, text: t + u };
            let one_run = log.depth == 0 && q == p + cluster::cluster_count(t)
                && cluster::cluster_count(u) == 1 && cluster::cluster_count(t) < 20;
            &&& one_run ==> log.push(new) == (undo::UndoLog {
                actions: log.actions.drop_last().push(joined),
                depth: log.depth,
            })
            &&& !one_run ==> log.push(new) == (undo::UndoLog {
                actions: log.actions.push(new),
                depth: log.depth,
            })
            &&& log.push(gone) == (undo::UndoLog {
                actions: log.actions.push(gone),
                depth: log.depth,
            })
        }),
{
}

/// Where the last entry of the log is no insertion, every edit becomes an entry of
/// its own. Group markers are entries too, and count the open groups.
pub proof fn law_log_other_entries(log: undo::UndoLog, action: undo::UndoAction)
    requires
        log.actions.len() == 0 || !(log.actions.last() is Insert),
    ensures
        log.push(action) == (undo::UndoLog {
            actions: log.actions.push(action),
            depth: log.depth,
        }),
        log.begin_group() == (undo::UndoLog {
            actions: log.actions.push(undo::UndoAction::GroupBegin),
            depth: log.depth + 1,
        }),
        log.depth > 0 ==> log.end_group() == (undo::UndoLog {
            actions: log.actions.push(undo::UndoAction::GroupEnd),
            depth: (log.depth - 1) as nat,
        }),
{
}

/// In printable ASCII, undo right after an insertion behind another one: where it
/// put in one character right behind the text of the last entry, outside groups
/// and while that had fewer than twenty characters, the text of that entry leaves
/// with it; in any other case the line comes back as it was before the insertion.
pub proof fn law_undo_plain_insertion(
    line: LineState,
    pos: nat,
    u: Seq<char>,
    p: nat,
    t: Seq<char>,
)
    requires
        line.wf(),
        pos <= line.count(),
        cluster::plain(line.text),
        u.len() > 0,
        cluster::plain(u),
        cluster::segmented(u),
        line.log.actions.len() > 0,
        line.log.actions.last() == (undo::UndoAction::Insert { pos: p, text: t }),
        cluster::plain(t),
        cluster::segmented(t),
        ({
            let new = line.at(pos).inserted(u);
            new.with_log(new.log.popped()).settles(new.log.undo_set())
        }),
    ensures
        ({
            let back = line.at(pos).inserted(u).undone();
            let one_run = line.log.depth == 0 && pos == p + t.len() && u.len() == 1 && t.len() < 20;
            &&& one_run ==> {
                &&& back.text == line.text.take(p as int) + line.text.skip((p + t.len()) as int)
                &&& back.cursor == p
                &&& back.log.actions == line.log.actions.drop_last()
            }
            &&& !one_run ==> {
                &&& back.text == line.text
                &&& back.cursor == pos
                &&& back.log == line.log
            }
        }),
{
    let new = line.at(pos).inserted(u);
    let action = undo::UndoAction::Insert { pos, text: u };
    let one_run = line.log.depth == 0 && pos == p + t.len() && u.len() == 1 && t.len() < 20;
    law_log_entries(line.log, p, t, pos, u);
    cluster::lemma_plain_boundary(line.text, pos);
    if one_run {
        let base = undo::UndoLog { actions: line.log.actions.drop_last(), depth: line.log.depth };
        let joined = undo::UndoAction::Insert { pos: p, text: t + u };
        lemma_undo_single(new, base, joined);
        assert(new.log.popped().actions =~= base.actions);
        assert(new.log.undo_set() =~= seq![joined]);
        assert(crate::readline::line_buffer::settled(seq![joined].last()));
        assert(cluster::plain(new.text));
        assert(cluster::plain(t + u));
        cluster::lemma_plain_boundary(new.text, p);
        cluster::lemma_plain_boundary(new.text, p + t.len() + 1);
        assert(new.text.take(p as int) + new.text.skip(p as int + t.len() as int + 1)
            =~= line.text.take(p as int) + line.text.skip((p + t.len()) as int));
        let back = new.undone();
        assert(seq![joined].drop_last() =~= Seq::<undo::UndoAction>::empty());
        assert(new.with_log(base).reverted(joined).settles(seq![joined].drop_last()));
        assert(cluster::segmented(back.text));
        assert(cluster::plain(back.text));
    } else {
        let edit = Edit::Insert { pos, text: u };
        law_undo_plain_edit(line, edit);
        lemma_undo_single(new, line.log, action);
    }
}

/// In printable ASCII, text that is put in anywhere but right behind the last
/// insertion is undone by itself: the next undo gives the line as it was before
/// that text, whatever the log held earlier.
pub proof fn law_undo_apart(line: LineState, a: Seq<char>, q: nat, u: Seq<char>)
    requires
        line.wf(),
        cluster::plain(line.text),
        a.len() > 0,
        cluster::plain(a),
        cluster::segmented(a),
        u.len() > 0,
        cluster::plain(u),
        cluster::segmented(u),
        line.log.actions.len() > 0 ==> (line.log.actions.last() matches undo::UndoAction::Insert {
            text,
            ..
        } ==> cluster::plain(text) && cluster::segmented(text)),
        line.inserted(a).wf(),
        cluster::segmented(line.inserted(a).log.actions.last()->Insert_text),
        q <= line.inserted(a).count(),
        q != line.cursor + a.len(),
        ({
            let new = line.inserted(a).at(q).inserted(u);
            new.with_log(new.log.popped()).settles(new.log.undo_set())
        }),
    ensures
        ({
            let first = line.inserted(a);
            let back = first.at(q).inserted(u).undone();
            &&& back.text == first.text
            &&& back.cursor == q
            &&& back.log == first.log
        }),
{
    let first = line.inserted(a);
    let action = undo::UndoAction::Insert { pos: line.cursor, text: a };
    cluster::lemma_plain_boundary(line.text, line.cursor);
    assert(cluster::plain(first.text));
    if line.log.actions.len() > 0 && line.log.actions.last() is Insert {
        let p = line.log.actions.last()->Insert_pos;
        let t = line.log.actions.last()->Insert_text;
        law_log_entries(line.log, p, t, line.cursor, a);
        if line.log.continues(action) {
            assert(cluster::plain(t + a));
            law_undo_plain_insertion(first, q, u, p, t + a);
        } else {
            law_undo_plain_insertion(first, q, u, line.cursor, a);
        }
    } else {
        law_log_other_entries(line.log, action);
        law_undo_plain_insertion(first, q, u, line.cursor, a);
    }
}

/// In printable ASCII, a character that is typed right behind fewer than twenty
/// others is undone together with them.
pub proof fn law_undo_run(line: LineState, a: Seq<char>, u: Seq<char>)
    requires
        line.wf(),
        cluster::plain(line.text),
        0 < a.len() < 20,
        cluster::plain(a),
        cluster::segmented(a),
        u.len() == 1,
        cluster::plain(u),
        cluster::segmented(u),
        line.log.depth == 0,
        line.log.actions.len() == 0 || !(line.log.actions.last() is Insert),
        line.inserted(a).wf(),
        ({
            let new = line.inserted(a).inserted(u);
            new.with_log(new.log.popped()).settles(new.log.undo_set())
        }),
    ensures
        line.inserted(a).inserted(u).undone().text == line.text,
        line.inserted(a).inserted(u).undone().cursor == line.cursor,
        line.inserted(a).inserted(u).undone().log == line.log,
{
    let first = line.inserted(a);
    let n = a.len() as int;
    let at = line.cursor as int;
    law_log_other_entries(
        line.log,
        undo::UndoAction::Insert { pos: line.cursor, text: a },
    );
    cluster::lemma_plain_boundary(line.text, line.cursor);
    assert(cluster::plain(first.text));
    assert(first.at(first.cursor) == first);
    law_undo_plain_insertion(first, first.cursor, u, line.cursor, a);
    assert(first.text.take(at) + first.text.skip(at + n) =~= line.text);
    let both = undo::UndoAction::Insert { pos: line.cursor, text: a + u };
    law_log_entries(first.log, line.cursor, a, first.cursor, u);
    assert(first.log.actions.drop_last() =~= line.log.actions);
    lemma_undo_single(first.inserted(u), line.log, both);
}

// ---------------------------------------------------------------------
// What undo takes off the log
// ---------------------------------------------------------------------

/// Undo of a log that ends in an edit takes back that edit alone, also inside an
/// open group. Where a group was begun and nothing done in it, the text stays.
pub proof fn law_undo_last(line: LineState)
    requires
        line.log.actions.len() > 0,
        !(line.log.actions.last() is GroupEnd),
    ensures
        ({
            let shorter = undo::UndoLog {
                actions: line.log.actions.drop_last(),
                depth: line.log.depth,
            };
            &&& line.undone().log == shorter
            &&& line.undone() == (LineState { log: shorter, ..line }).reverted(
                line.log.actions.last(),
            )
            &&& line.log.actions.last() is GroupBegin ==> line.undone() == (LineState {
                log: shorter,
                ..line
            })
        }),
{
    let action = line.log.actions.last();
    let shorter = undo::UndoLog { actions: line.log.actions.drop_last(), depth: line.log.depth };
    assert(line.log.actions =~= shorter.actions.push(action));
    let set = line.log.undo_set();
    assert(line.log.popped().actions =~= shorter.actions);
    assert(set =~= seq![action]);
    assert(set.drop_last() =~= Seq::<undo::UndoAction>::empty());
    let mid = line.with_log(shorter).reverted(action);
    assert(mid.reverted_all(set.drop_last()) == mid);
}

/// The edits of a row of actions are those of its parts, in order; an insertion or
/// a deletion is an edit, a group marker is none.
pub proof fn law_edits(a: Seq<undo::UndoAction>, b: Seq<undo::UndoAction>, pos: nat, t: Seq<char>)
    ensures
        undo::edits_of(a + b) == undo::edits_of(a) + undo::edits_of(b),
        undo::edits_of(seq![undo::UndoAction::Insert { pos, text: t }]) == seq![
            undo::UndoAction::Insert { pos, text: t },
        ],
        undo::edits_of(seq![undo::UndoAction::Delete { pos, text: t }]) == seq![
            undo::UndoAction::Delete { pos, text: t },
        ],
        undo::edits_of(seq![undo::UndoAction::GroupBegin]).len() == 0,
        undo::edits_of(seq![undo::UndoAction::GroupEnd]).len() == 0,
{
    lemma_edits_concat(a, b);
    let none = Seq::<undo::UndoAction>::empty();
    let i = seq![undo::UndoAction::Insert { pos, text: t }];
    let d = seq![undo::UndoAction::Delete { pos, text: t }];
    let g = seq![undo::UndoAction::GroupBegin];
    let e = seq![undo::UndoAction::GroupEnd];
    assert(undo::edits_of(none) =~= none);
    assert(i.drop_last() =~= none && d.drop_last() =~= none);
    assert(g.drop_last() =~= none && e.drop_last() =~= none);
    assert(undo::edits_of(i) =~= i);
    assert(undo::edits_of(d) =~= d);
}

} // verus!
