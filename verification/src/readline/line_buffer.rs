//! A Unicode-aware, mutable line editing buffer.

use crate::readline::cluster;
use crate::readline::error::{BoundarySide, OxidreadError, Result};
use crate::readline::undo;
use crate::readline::width;
use vstd::prelude::*;
use vstd::string::*;

pub use crate::readline::undo::{UndoEntry, UndoStack};

verus! {

// ---------------------------------------------------------------------
// The state of a line, and what each command makes of it
// ---------------------------------------------------------------------

/// The error for a command that is blocked at the start of the line.
pub open spec fn blocked_at_start() -> OxidreadError {
    OxidreadError::CursorAtBoundary { side: BoundarySide::Start }
}

/// The error for a command that is blocked at the end of the line.
pub open spec fn blocked_at_end() -> OxidreadError {
    OxidreadError::CursorAtBoundary { side: BoundarySide::End }
}

/// Where position `p` lies once `n` clusters from `pos` on are gone.
pub open spec fn shifted(p: nat, pos: nat, n: nat) -> nat {
    if p > pos + n {
        (p - n) as nat
    } else if p > pos {
        pos
    } else {
        p
    }
}

/// The smaller of two positions.
pub open spec fn capped(p: nat, end: nat) -> nat {
    if p <= end {
        p
    } else {
        end
    }
}

/// `true` when the text of `action` is segmented as the text of a string is.
pub open spec fn settled(action: undo::UndoAction) -> bool {
    match action {
        undo::UndoAction::Insert { text, .. } => cluster::segmented(text),
        undo::UndoAction::Delete { text, .. } => cluster::segmented(text),
        _ => true,
    }
}

/// The state of a line being edited. Positions count grapheme clusters.
pub struct LineState {
    pub text: Seq<char>,
    pub cursor: nat,
    pub mark: Option<nat>,
    pub log: undo::UndoLog,
}

impl LineState {
    /// How many clusters the line has.
    pub open spec fn count(self) -> nat {
        cluster::cluster_count(self.text)
    }

    /// What holds of every line: the cursor is not beyond its end.
    pub open spec fn wf(self) -> bool {
        &&& cluster::segmented(self.text)
        &&& self.cursor <= self.count()
    }

    /// An empty line.
    pub open spec fn blank() -> LineState {
        LineState {
            text: Seq::empty(),
            cursor: 0,
            mark: None,
            log: undo::UndoLog::empty(),
        }
    }

    /// A line that holds `text`, with the cursor at its end.
    pub open spec fn holding(text: Seq<char>) -> LineState {
        LineState {
            text,
            cursor: cluster::cluster_count(text),
            mark: None,
            log: undo::UndoLog::empty(),
        }
    }

    /// The line with the cursor moved to `pos`.
    pub open spec fn at(self, pos: nat) -> LineState {
        LineState { cursor: pos, ..self }
    }

    /// The line with another mark.
    pub open spec fn marked(self, mark: Option<nat>) -> LineState {
        LineState { mark, ..self }
    }

    /// The line with cursor and mark exchanged.
    pub open spec fn exchanged(self) -> LineState {
        LineState {
            cursor: capped(self.mark->0, self.count()),
            mark: Some(self.cursor),
            ..self
        }
    }

    /// The line once `added` was inserted at the cursor.
    pub open spec fn inserted(self, added: Seq<char>) -> LineState {
        if added.len() == 0 {
            self
        } else {
            let text = cluster::with_inserted(self.text, self.cursor, added);
            LineState {
                text,
                cursor: capped(
                    self.cursor + cluster::cluster_count(added),
                    cluster::cluster_count(text),
                ),
                mark: self.mark,
                log: self.log.push(
                    undo::UndoAction::Insert { pos: self.cursor, text: added },
                ),
            }
        }
    }

    /// The line once `n` clusters from `pos` on were deleted.
    pub open spec fn deleted(self, pos: nat, n: nat) -> LineState {
        if n == 0 {
            self
        } else {
            let text = cluster::without_range(self.text, pos, pos + n);
            LineState {
                text,
                cursor: capped(shifted(self.cursor, pos, n), cluster::cluster_count(text)),
                mark: match self.mark {
                    Some(m) => Some(shifted(m, pos, n)),
                    None => None,
                },
                log: self.log.push(
                    undo::UndoAction::Delete {
                        pos,
                        text: cluster::range_text(self.text, pos, pos + n),
                    },
                ),
            }
        }
    }

    /// The second of the two clusters that a transposition swaps: the one at the
    /// cursor, or the last one where the cursor is at the end.
    pub open spec fn swap_pos(self) -> nat {
        if self.cursor == self.count() {
            (self.count() - 1) as nat
        } else {
            self.cursor
        }
    }

    /// The line once clusters `pos - 1` and `pos` were swapped, as one undoable
    /// step, with the cursor behind them.
    pub open spec fn transposed(self, pos: nat) -> LineState {
        let first = cluster::grapheme_clusters(self.text)[pos - 1];
        let second = cluster::grapheme_clusters(self.text)[pos as int];
        let before = (pos - 1) as nat;
        let text = self.text.take(cluster::boundary(self.text, before)) + (second + first)
            + self.text.skip(cluster::boundary(self.text, pos + 1));
        LineState {
            text,
            cursor: capped(pos + 1, cluster::cluster_count(text)),
            mark: match self.mark {
                Some(m) => Some(shifted(m, before, 2)),
                None => None,
            },
            log: self.log.begin_group().push(
                undo::UndoAction::Delete { pos: before, text: first + second },
            ).push(undo::UndoAction::Insert { pos: before, text: second + first }).end_group(),
        }
    }

    /// The line once `action` was taken back: what was inserted is deleted, what
    /// was deleted is inserted again. The undo log is not touched.
    pub open spec fn reverted(self, action: undo::UndoAction) -> LineState {
        match action {
            undo::UndoAction::Insert { pos, text } => {
                let left = cluster::without_range(
                    self.text,
                    pos,
                    pos + cluster::cluster_count(text),
                );
                LineState {
                    text: left,
                    cursor: capped(pos, cluster::cluster_count(left)),
                    ..self
                }
            },
            undo::UndoAction::Delete { pos, text } => {
                let whole = cluster::with_inserted(self.text, pos, text);
                LineState {
                    text: whole,
                    cursor: capped(
                        pos + cluster::cluster_count(text),
                        cluster::cluster_count(whole),
                    ),
                    ..self
                }
            },
            _ => self,
        }
    }

    /// The line once `actions` were taken back, the last one first.
    pub open spec fn reverted_all(self, actions: Seq<undo::UndoAction>) -> LineState
        decreases actions.len(),
    {
        if actions.len() == 0 {
            self
        } else {
            self.reverted(actions.last()).reverted_all(actions.drop_last())
        }
    }

    /// `true` when every text that taking back `actions` meets is segmented as the
    /// text of a string is.
    pub open spec fn settles(self, actions: Seq<undo::UndoAction>) -> bool
        decreases actions.len(),
    {
        &&& cluster::segmented(self.text)
        &&& actions.len() > 0 ==> settled(actions.last()) && self.reverted(
            actions.last(),
        ).settles(actions.drop_last())
    }

    /// The line once its undo log was replaced.
    pub open spec fn with_log(self, log: undo::UndoLog) -> LineState {
        LineState { log, ..self }
    }

    /// The line once the last action, or the last group of actions, was undone.
    pub open spec fn undone(self) -> LineState {
        self.with_log(self.log.popped()).reverted_all(self.log.undo_set())
    }

    /// Where the word at or behind the cursor ends.
    pub open spec fn next_word_end(self) -> nat {
        let words = cluster::word_flags(cluster::grapheme_clusters(self.text));
        cluster::run_end(words, cluster::run_end(words, self.cursor as int, false), true) as nat
    }

    /// Where the word before the cursor starts.
    pub open spec fn word_start(self) -> nat {
        let words = cluster::word_flags(cluster::grapheme_clusters(self.text));
        cluster::run_start(words, cluster::run_start(words, self.cursor as int, false), true) as nat
    }

    /// Where the run of non-blank clusters at or behind the cursor ends.
    pub open spec fn next_blank(self) -> nat {
        let blanks = cluster::blank_flags(cluster::grapheme_clusters(self.text));
        cluster::run_end(blanks, cluster::run_end(blanks, self.cursor as int, true), false) as nat
    }

    /// Where the run of non-blank clusters before the cursor starts.
    pub open spec fn after_blank(self) -> nat {
        let blanks = cluster::blank_flags(cluster::grapheme_clusters(self.text));
        cluster::run_start(blanks, cluster::run_start(blanks, self.cursor as int, true), false)
            as nat
    }
}

/// `pos + n`, but no more than `end`.
pub fn advanced(pos: usize, n: usize, end: usize) -> (r: usize)
    ensures
        r == capped((pos + n) as nat, end as nat),
{
    if pos >= end || n >= end - pos {
        end
    } else {
        pos + n
    }
}

/// Where position `p` lies once `n` clusters from `pos` on are gone.
pub fn shift(p: usize, pos: usize, n: usize) -> (r: usize)
    ensures
        r == shifted(p as nat, pos as nat, n as nat),
{
    if p <= pos {
        p
    } else if p - pos > n {
        p - n
    } else {
        pos
    }
}

/// What a deletion does to the cursor and to the number of clusters: the clusters
/// before the gap stay, so a cursor up to the end of the gap stands no later than
/// its start.
pub proof fn lemma_deleted(line: LineState, pos: nat, n: nat)
    requires
        line.wf(),
        0 < n,
        pos + n <= line.count(),
        line.deleted(pos, n).wf(),
    ensures
        pos <= line.deleted(pos, n).count(),
        line.cursor <= pos + n ==> line.deleted(pos, n).cursor == capped(line.cursor, pos),
        pos + n == line.count() ==> line.deleted(pos, n).count() == pos,
{
    let new = line.deleted(pos, n).text;
    let head = cluster::prefix_text(line.text, pos);
    cluster::lemma_boundaries(line.text, pos, pos + n);
    assert(new.take(head.len() as int) =~= head);
    cluster::lemma_kept_count(line.text, pos, new);
    if pos + n == line.count() {
        assert(new =~= head);
        cluster::lemma_prefix_count(line.text, pos);
    }
}

// ---------------------------------------------------------------------
// The buffer
// ---------------------------------------------------------------------

/// A Unicode-aware, mutable line editing buffer.
///
/// Positions are **grapheme cluster indices**: what a terminal user perceives
/// as one character position. The cursor never lies beyond the last cluster,
/// nor inside one. The mark is a second, optional position for commands on a
/// region.
#[derive(Debug)]
pub struct LineBuffer {
    buf: String,
    cursor: usize,
    mark: Option<usize>,
    undo: UndoStack,
}

impl View for LineBuffer {
    type V = LineState;

    closed spec fn view(&self) -> LineState {
        LineState {
            text: self.buf@,
            cursor: self.cursor as nat,
            mark: match self.mark {
                Some(m) => Some(m as nat),
                None => None,
            },
            log: self.undo@,
        }
    }
}

impl Default for LineBuffer {
    fn default() -> (r: Self)
        ensures
            r@.wf(),
            r@ == LineState::blank(),
            r@.count() == 0,
    {
        LineBuffer::new()
    }
}

impl Clone for LineBuffer {
    fn clone(&self) -> (r: Self)
        ensures
            r@ == self@,
    {
        LineBuffer {
            buf: self.buf.clone(),
            cursor: self.cursor,
            mark: self.mark,
            undo: self.undo.clone(),
        }
    }
}

impl LineBuffer {
    // -----------------------------------------------------------------
    // Construction
    // -----------------------------------------------------------------

    /// An empty line.
    pub fn new() -> (r: Self)
        ensures
            r@.wf(),
            r@ == LineState::blank(),
            r@.count() == 0,
    {
        let r = LineBuffer::from_str("");
        proof {
            reveal_strlit("");
            assert(r@.text =~= Seq::<char>::empty());
            cluster::lemma_count(r@.text);
        }
        r
    }

    /// A line that holds `text`, with the cursor at its end.
    pub fn from_str(text: &str) -> (r: Self)
        ensures
            r@.wf(),
            r@ == LineState::holding(text@),
    {
        let count: usize = cluster::count_graphemes(text);
        LineBuffer { buf: text.to_owned(), cursor: count, mark: None, undo: UndoStack::new() }
    }

    // -----------------------------------------------------------------
    // Insert and delete
    // -----------------------------------------------------------------

    /// Inserts `text` at the cursor and moves the cursor on by the number of
    /// clusters of `text`, but not beyond the end of the line. The insertion can be
    /// undone.
    pub fn insert(&mut self, text: &str) -> (r: Result<()>)
        requires
            old(self)@.wf(),
        ensures
            final(self)@.wf(),
            r is Ok,
            final(self)@ == old(self)@.inserted(text@),
            text@.len() > 0 ==> cluster::segmented(text@),
            text@.len() > 0 && old(self)@.log.depth == 0 && old(self)@.log.actions.len() > 0 ==> (
            old(self)@.log.actions.last() is Insert ==> settled(old(self)@.log.actions.last())),
    {
        if text.is_empty() {
            return Ok(());
        }
        let buf: String = cluster::insert_text(self.buf.as_str(), self.cursor, text);
        let added: usize = cluster::count_graphemes(text);
        let count: usize = cluster::count_graphemes(buf.as_str());
        self.undo.push(UndoEntry::Insert { grapheme_pos: self.cursor, text: text.to_owned() });
        self.buf = buf;
        self.cursor = advanced(self.cursor, added, count);
        Ok(())
    }

    /// Deletes `n` clusters from cluster `pos` on, or as many as there are, and
    /// returns the deleted text. The cursor and the mark move with the text
    /// behind the gap. The deletion can be undone.
    pub fn delete_range(&mut self, pos: usize, n: usize) -> (r: Result<String>)
        requires
            old(self)@.wf(),
        ensures
            final(self)@.wf(),
            pos > old(self)@.count() ==> r == Err::<String, OxidreadError>(
                (OxidreadError::GraphemeOutOfRange {
                    index: pos,
                    count: old(self)@.count() as usize,
                }),
            ) && final(self)@ == old(self)@,
            pos <= old(self)@.count() ==> {
                let m = capped(n as nat, (old(self)@.count() - pos) as nat);
                &&& r is Ok
                &&& r->Ok_0@ == cluster::range_text(old(self)@.text, pos as nat, pos as nat + m)
                &&& final(self)@ == old(self)@.deleted(pos as nat, m)
                &&& old(self)@.cursor <= pos + m ==> final(self)@.cursor == capped(
                    old(self)@.cursor,
                    pos as nat,
                )
                &&& pos + m == old(self)@.count() ==> final(self)@.count() == pos
            },
    {
        let count: usize = cluster::count_graphemes(self.buf.as_str());
        if pos > count {
            return Err(OxidreadError::GraphemeOutOfRange { index: pos, count });
        }
        let m: usize = if n < count - pos {
            n
        } else {
            count - pos
        };
        proof {
            cluster::lemma_boundaries(self@.text, pos as nat, (pos + m) as nat);
        }
        if m == 0 {
            return Ok(String::new());
        }
        let parts: Vec<&str> = cluster::graphemes(self.buf.as_str());
        let deleted: String = cluster::join_clusters(&parts, pos, pos + m);
        let buf: String = cluster::replace_clusters(self.buf.as_str(), pos, pos + m, "");
        proof {
            reveal_strlit("");
            assert(buf@ =~= cluster::without_range(self@.text, pos as nat, (pos + m) as nat));
        }
        self.undo.push(UndoEntry::Delete { grapheme_pos: pos, text: deleted.clone() });
        self.buf = buf;
        let left: usize = cluster::count_graphemes(self.buf.as_str());
        self.cursor = advanced(shift(self.cursor, pos, m), 0, left);
        if let Some(mark) = self.mark {
            self.mark = Some(shift(mark, pos, m));
        }
        proof {
            lemma_deleted(old(self)@, pos as nat, m as nat);
        }
        Ok(deleted)
    }

    /// Swaps the cluster at the cursor with the one before it, or the last two
    /// clusters where the cursor is at the end, and moves the cursor behind
    /// them. The swap is undone as one step.
    pub fn transpose_chars(&mut self) -> (r: Result<()>)
        requires
            old(self)@.wf(),
            old(self)@.log.depth < usize::MAX,
        ensures
            final(self)@.wf(),
            old(self)@.count() < 2 || old(self)@.cursor == 0 ==> r
                == Err::<(), OxidreadError>(blocked_at_start()) && final(self)@ == old(self)@,
            old(self)@.count() >= 2 && old(self)@.cursor > 0 ==> r is Ok && final(self)@
                == old(self)@.transposed(old(self)@.swap_pos()),
    {
        let parts: Vec<&str> = cluster::graphemes(self.buf.as_str());
        let count: usize = parts.len();
        proof {
            assert(cluster::slices(parts@).len() == parts@.len());
        }
        if count < 2 || self.cursor == 0 {
            return Err(OxidreadError::CursorAtBoundary { side: BoundarySide::Start });
        }
        let pos: usize = if self.cursor == count {
            count - 1
        } else {
            self.cursor
        };
        let mut pair = String::new();
        pair.append(parts[pos - 1]);
        pair.append(parts[pos]);
        let mut swapped = String::new();
        swapped.append(parts[pos]);
        swapped.append(parts[pos - 1]);
        let buf: String = cluster::replace_clusters(
            self.buf.as_str(),
            pos - 1,
            pos + 1,
            swapped.as_str(),
        );
        proof {
            let first = cluster::slices(parts@)[pos - 1];
            let second = cluster::slices(parts@)[pos as int];
            assert(first == parts@[pos - 1]@ && second == parts@[pos as int]@);
            assert(pair@ =~= first + second);
            assert(swapped@ =~= second + first);
        }
        self.undo.begin_group();
        self.undo.push(UndoEntry::Delete { grapheme_pos: pos - 1, text: pair });
        self.undo.push(UndoEntry::Insert { grapheme_pos: pos - 1, text: swapped });
        let ended: Result<()> = self.undo.end_group();
        self.buf = buf;
        let left: usize = cluster::count_graphemes(self.buf.as_str());
        self.cursor = advanced(pos, 1, left);
        if let Some(mark) = self.mark {
            self.mark = Some(shift(mark, pos - 1, 2));
        }
        ended
    }

    // -----------------------------------------------------------------
    // Undo
    // -----------------------------------------------------------------

    /// Takes back one recorded edit.
    fn revert(&mut self, entry: &UndoEntry)
        requires
            old(self)@.wf(),
        ensures
            final(self)@.wf(),
            final(self)@ == old(self)@.reverted(entry@),
            settled(entry@),
    {
        match entry {
            UndoEntry::Insert { grapheme_pos, text } => {
                let at: usize = *grapheme_pos;
                let n: usize = cluster::count_graphemes(text.as_str());
                let end: usize = at.saturating_add(n);
                let count: usize = cluster::count_graphemes(self.buf.as_str());
                let buf: String = cluster::replace_clusters(
                    self.buf.as_str(),
                    at,
                    end,
                    "",
                );
                proof {
                    reveal_strlit("");
                    let whole = self@.text;
                    assert(cluster::boundary(whole, end as nat) == cluster::boundary(
                        whole,
                        (at + n) as nat,
                    ));
                    assert(buf@ =~= cluster::without_range(
                        whole,
                        at as nat,
                        (at + n) as nat,
                    ));
                }
                let left: usize = cluster::count_graphemes(buf.as_str());
                self.buf = buf;
                self.cursor = advanced(at, 0, left);
            },
            UndoEntry::Delete { grapheme_pos, text } => {
                let at: usize = *grapheme_pos;
                let n: usize = cluster::count_graphemes(text.as_str());
                let buf: String = cluster::insert_text(
                    self.buf.as_str(),
                    at,
                    text.as_str(),
                );
                let left: usize = cluster::count_graphemes(buf.as_str());
                self.buf = buf;
                self.cursor = advanced(at, n, left);
            },
            _ => {},
        }
    }

    /// Undoes the last edit, or the last group of edits.
    pub fn undo(&mut self) -> (r: Result<()>)
        requires
            old(self)@.wf(),
        ensures
            final(self)@.wf(),
            old(self)@.log.actions.len() == 0 ==> r
                == Err::<(), OxidreadError>(OxidreadError::UndoStackEmpty) && final(self)@
                == old(self)@,
            old(self)@.log.actions.len() > 0 ==> r is Ok && final(self)@ == old(self)@.undone()
                && final(self)@.log == old(self)@.log.popped() && final(self)@.mark
                == old(self)@.mark,
            old(self)@.log.actions.len() > 0 ==> old(self)@.with_log(
                old(self)@.log.popped(),
            ).settles(old(self)@.log.undo_set()),
    {
        let set: Vec<UndoEntry> = match self.undo.pop_undo_set() {
            Err(e) => {
                return Err(e);
            },
            Ok(set) => set,
        };
        let ghost before = self@;
        let ghost actions = old(self)@.log.undo_set();
        let mut i: usize = 0;
        assert(undo::actions_of(set@) == actions.reverse());
        assert(actions.take(actions.len() as int) =~= actions);
        while i < set.len()
            invariant
                i <= set@.len() == actions.len(),
                undo::actions_of(set@) == actions.reverse(),
                self@.wf(),
                self@.log == before.log,
                self@.mark == before.mark,
                self@.reverted_all(actions.take(actions.len() - i)) == before.reverted_all(actions),
                self@.settles(actions.take(actions.len() - i)) ==> before.settles(actions),
            decreases set@.len() - i,
        {
            proof {
                let left = actions.take(actions.len() - i);
                assert(undo::actions_of(set@)[i as int] == set@[i as int]@);
                assert(left.last() == set@[i as int]@);
                assert(left.drop_last() =~= actions.take(actions.len() - i - 1));
            }
            self.revert(&set[i]);
            i = i + 1;
        }
        assert(actions.take(0) =~= Seq::<undo::UndoAction>::empty());
        Ok(())
    }

    /// Begins an undo group: all edits up to `end_undo_group` are undone as one.
    pub fn begin_undo_group(&mut self)
        requires
            old(self)@.wf(),
            old(self)@.log.depth < usize::MAX,
        ensures
            final(self)@.wf(),
            final(self)@ == old(self)@.with_log(old(self)@.log.begin_group()),
    {
        self.undo.begin_group();
    }

    /// Ends an undo group. Without an open group nothing changes and an error
    /// comes back.
    pub fn end_undo_group(&mut self) -> (r: Result<()>)
        requires
            old(self)@.wf(),
        ensures
            final(self)@.wf(),
            old(self)@.log.depth == 0 ==> r
                == Err::<(), OxidreadError>(OxidreadError::UndoGroupMismatch) && final(self)@
                == old(self)@,
            old(self)@.log.depth > 0 ==> r is Ok && final(self)@
                == old(self)@.with_log(old(self)@.log.end_group()),
    {
        self.undo.end_group()
    }

    // -----------------------------------------------------------------
    // Kill commands
    // -----------------------------------------------------------------

    /// Deletes the cluster before the cursor and returns it.
    pub fn backspace(&mut self) -> (r: Result<String>)
        requires
            old(self)@.wf(),
        ensures
            final(self)@.wf(),
            old(self)@.cursor == 0 ==> r == Err::<String, OxidreadError>(blocked_at_start())
                && final(self)@ == old(self)@,
            old(self)@.cursor > 0 ==> {
                let pos = (old(self)@.cursor - 1) as nat;
                &&& r is Ok
                &&& r->Ok_0@ == cluster::grapheme_clusters(old(self)@.text)[pos as int]
                &&& final(self)@ == old(self)@.deleted(pos, 1)
                &&& final(self)@.cursor == pos
            },
    {
        if self.cursor == 0 {
            return Err(OxidreadError::CursorAtBoundary { side: BoundarySide::Start });
        }
        proof {
            cluster::lemma_one_cluster(self@.text, (self.cursor - 1) as nat);
        }
        self.delete_range(self.cursor - 1, 1)
    }

    /// Deletes the cluster at the cursor and returns it.
    pub fn delete_forward(&mut self) -> (r: Result<String>)
        requires
            old(self)@.wf(),
        ensures
            final(self)@.wf(),
            old(self)@.cursor == old(self)@.count() ==> r
                == Err::<String, OxidreadError>(blocked_at_end()) && final(self)@ == old(self)@,
            old(self)@.cursor < old(self)@.count() ==> {
                let pos = old(self)@.cursor;
                &&& r is Ok
                &&& r->Ok_0@ == cluster::grapheme_clusters(old(self)@.text)[pos as int]
                &&& final(self)@ == old(self)@.deleted(pos, 1)
                &&& final(self)@.cursor == pos
            },
    {
        if self.at_end() {
            return Err(OxidreadError::CursorAtBoundary { side: BoundarySide::End });
        }
        proof {
            cluster::lemma_one_cluster(self@.text, self.cursor as nat);
        }
        self.delete_range(self.cursor, 1)
    }

    /// Deletes everything from the cursor on and returns it.
    pub fn kill_to_end(&mut self) -> (r: Result<String>)
        requires
            old(self)@.wf(),
        ensures
            final(self)@.wf(),
            old(self)@.cursor == old(self)@.count() ==> r
                == Err::<String, OxidreadError>(blocked_at_end()) && final(self)@ == old(self)@,
            old(self)@.cursor < old(self)@.count() ==> {
                let cut = cluster::boundary(old(self)@.text, old(self)@.cursor);
                let n = (old(self)@.count() - old(self)@.cursor) as nat;
                &&& r is Ok
                &&& r->Ok_0@ == old(self)@.text.skip(cut)
                &&& final(self)@.text == old(self)@.text.take(cut)
                &&& final(self)@ == old(self)@.deleted(old(self)@.cursor, n)
                &&& final(self)@.cursor == old(self)@.cursor == final(self)@.count()
            },
    {
        let count: usize = self.grapheme_count();
        let n: usize = count - self.cursor;
        if n == 0 {
            return Err(OxidreadError::CursorAtBoundary { side: BoundarySide::End });
        }
        proof {
            let text = self@.text;
            cluster::lemma_boundaries(text, self@.cursor, count as nat);
            assert(text.skip(text.len() as int) =~= Seq::<char>::empty());
            let cut = cluster::boundary(text, self@.cursor);
            assert(text.take(cut) + Seq::<char>::empty() =~= text.take(cut));
            assert(text.subrange(cut, text.len() as int) =~= text.skip(cut));
        }
        self.delete_range(self.cursor, n)
    }

    /// Deletes everything before the cursor and returns it.
    pub fn kill_to_start(&mut self) -> (r: Result<String>)
        requires
            old(self)@.wf(),
        ensures
            final(self)@.wf(),
            old(self)@.cursor == 0 ==> r == Err::<String, OxidreadError>(blocked_at_start())
                && final(self)@ == old(self)@,
            old(self)@.cursor > 0 ==> {
                let cut = cluster::boundary(old(self)@.text, old(self)@.cursor);
                &&& r is Ok
                &&& r->Ok_0@ == old(self)@.text.take(cut)
                &&& final(self)@.text == old(self)@.text.skip(cut)
                &&& final(self)@ == old(self)@.deleted(0, old(self)@.cursor)
                &&& final(self)@.cursor == 0
            },
    {
        if self.cursor == 0 {
            return Err(OxidreadError::CursorAtBoundary { side: BoundarySide::Start });
        }
        let n: usize = self.cursor;
        proof {
            let text = self@.text;
            cluster::lemma_boundaries(text, 0, self@.cursor);
            let cut = cluster::boundary(text, self@.cursor);
            assert(text.take(0) + text.skip(cut) =~= text.skip(cut));
            assert(text.subrange(0, cut) =~= text.take(cut));
        }
        self.delete_range(0, n)
    }

    /// Deletes the run of non-blank clusters before the cursor, with the blanks
    /// between it and the cursor, and returns what was deleted.
    pub fn kill_word_backward(&mut self) -> (r: Result<String>)
        requires
            old(self)@.wf(),
        ensures
            final(self)@.wf(),
            old(self)@.cursor == 0 ==> r == Err::<String, OxidreadError>(blocked_at_start())
                && final(self)@ == old(self)@,
            old(self)@.cursor > 0 ==> {
                let pos = old(self)@.after_blank();
                let n = (old(self)@.cursor - pos) as nat;
                &&& r is Ok
                &&& r->Ok_0@ == cluster::range_text(old(self)@.text, pos, old(self)@.cursor)
                &&& final(self)@ == old(self)@.deleted(pos, n)
                &&& final(self)@.cursor == pos
            },
    {
        if self.cursor == 0 {
            return Err(OxidreadError::CursorAtBoundary { side: BoundarySide::Start });
        }
        let parts: Vec<&str> = cluster::graphemes(self.buf.as_str());
        let blanks: Vec<bool> = cluster::blank_flags_of(&parts);
        let behind: usize = cluster::skip_run_back(&blanks, self.cursor, true);
        let pos: usize = cluster::skip_run_back(&blanks, behind, false);
        self.delete_range(pos, self.cursor - pos)
    }

    /// Deletes the run of non-blank clusters at or behind the cursor, with the
    /// blanks between the cursor and it, and returns what was deleted.
    pub fn kill_word_forward(&mut self) -> (r: Result<String>)
        requires
            old(self)@.wf(),
        ensures
            final(self)@.wf(),
            old(self)@.cursor == old(self)@.count() ==> r
                == Err::<String, OxidreadError>(blocked_at_end()) && final(self)@ == old(self)@,
            old(self)@.cursor < old(self)@.count() ==> {
                let end = old(self)@.next_blank();
                let n = (end - old(self)@.cursor) as nat;
                &&& r is Ok
                &&& r->Ok_0@ == cluster::range_text(old(self)@.text, old(self)@.cursor, end)
                &&& final(self)@ == old(self)@.deleted(old(self)@.cursor, n)
                &&& final(self)@.cursor == old(self)@.cursor
            },
    {
        if self.at_end() {
            return Err(OxidreadError::CursorAtBoundary { side: BoundarySide::End });
        }
        let parts: Vec<&str> = cluster::graphemes(self.buf.as_str());
        let blanks: Vec<bool> = cluster::blank_flags_of(&parts);
        let start: usize = cluster::skip_run(&blanks, self.cursor, true);
        let end: usize = cluster::skip_run(&blanks, start, false);
        self.delete_range(self.cursor, end - self.cursor)
    }

    // -----------------------------------------------------------------
    // Cursor movement
    // -----------------------------------------------------------------

    /// Moves the cursor forward by `n` clusters, or to the end.
    pub fn move_forward(&mut self, n: usize) -> (r: Result<()>)
        requires
            old(self)@.wf(),
        ensures
            final(self)@.wf(),
            old(self)@.cursor == old(self)@.count() ==> r
                == Err::<(), OxidreadError>(blocked_at_end()) && final(self)@ == old(self)@,
            old(self)@.cursor < old(self)@.count() ==> r is Ok && final(self)@
                == old(self)@.at(capped(old(self)@.cursor + n as nat, old(self)@.count())),
    {
        let count: usize = self.grapheme_count();
        if self.cursor == count {
            return Err(OxidreadError::CursorAtBoundary { side: BoundarySide::End });
        }
        self.cursor = advanced(self.cursor, n, count);
        Ok(())
    }

    /// Moves the cursor backward by `n` clusters, or to the start.
    pub fn move_backward(&mut self, n: usize) -> (r: Result<()>)
        requires
            old(self)@.wf(),
        ensures
            final(self)@.wf(),
            old(self)@.cursor == 0 ==> r == Err::<(), OxidreadError>(blocked_at_start())
                && final(self)@ == old(self)@,
            old(self)@.cursor > 0 ==> r is Ok && final(self)@ == old(self)@.at(
                if n <= old(self)@.cursor {
                    (old(self)@.cursor - n) as nat
                } else {
                    0
                },
            ),
    {
        if self.cursor == 0 {
            return Err(OxidreadError::CursorAtBoundary { side: BoundarySide::Start });
        }
        self.cursor = self.cursor.saturating_sub(n);
        Ok(())
    }

    /// Moves the cursor to the start of the line.
    pub fn move_to_start(&mut self)
        requires
            old(self)@.wf(),
        ensures
            final(self)@.wf(),
            final(self)@ == old(self)@.at(0),
    {
        self.cursor = 0;
    }

    /// Moves the cursor to the end of the line.
    pub fn move_to_end(&mut self)
        requires
            old(self)@.wf(),
        ensures
            final(self)@.wf(),
            final(self)@ == old(self)@.at(old(self)@.count()),
    {
        self.cursor = self.grapheme_count();
    }

    /// Moves the cursor to the end of the word at or behind it.
    pub fn move_forward_word(&mut self)
        requires
            old(self)@.wf(),
        ensures
            final(self)@.wf(),
            final(self)@ == old(self)@.at(old(self)@.next_word_end()),
    {
        let parts: Vec<&str> = cluster::graphemes(self.buf.as_str());
        let words: Vec<bool> = cluster::word_flags_of(&parts);
        let start: usize = cluster::skip_run(&words, self.cursor, false);
        let end: usize = cluster::skip_run(&words, start, true);
        self.cursor = end;
    }

    /// Moves the cursor to the start of the word before it.
    pub fn move_backward_word(&mut self)
        requires
            old(self)@.wf(),
        ensures
            final(self)@.wf(),
            final(self)@ == old(self)@.at(old(self)@.word_start()),
    {
        let parts: Vec<&str> = cluster::graphemes(self.buf.as_str());
        let words: Vec<bool> = cluster::word_flags_of(&parts);
        let end: usize = cluster::skip_run_back(&words, self.cursor, false);
        let start: usize = cluster::skip_run_back(&words, end, true);
        self.cursor = start;
    }

    /// Moves the cursor to cluster `pos`.
    pub fn set_cursor(&mut self, pos: usize) -> (r: Result<()>)
        requires
            old(self)@.wf(),
        ensures
            final(self)@.wf(),
            pos > old(self)@.count() ==> r == Err::<(), OxidreadError>(
                (OxidreadError::CursorOutOfBounds { pos, len: old(self)@.count() as usize }),
            ) && final(self)@ == old(self)@,
            pos <= old(self)@.count() ==> r is Ok && final(self)@ == old(self)@.at(pos as nat),
    {
        let count: usize = self.grapheme_count();
        if pos > count {
            return Err(OxidreadError::CursorOutOfBounds { pos, len: count });
        }
        self.cursor = pos;
        Ok(())
    }

    // -----------------------------------------------------------------
    // Mark
    // -----------------------------------------------------------------

    /// Sets the mark at the cursor.
    pub fn set_mark(&mut self)
        requires
            old(self)@.wf(),
        ensures
            final(self)@.wf(),
            final(self)@ == old(self)@.marked(Some(old(self)@.cursor)),
    {
        self.mark = Some(self.cursor);
    }

    /// Sets the mark at cluster `pos`.
    pub fn set_mark_at(&mut self, pos: usize) -> (r: Result<()>)
        requires
            old(self)@.wf(),
        ensures
            final(self)@.wf(),
            pos > old(self)@.count() ==> r == Err::<(), OxidreadError>(
                (OxidreadError::CursorOutOfBounds { pos, len: old(self)@.count() as usize }),
            ) && final(self)@ == old(self)@,
            pos <= old(self)@.count() ==> r is Ok && final(self)@
                == old(self)@.marked(Some(pos as nat)),
    {
        let count: usize = self.grapheme_count();
        if pos > count {
            return Err(OxidreadError::CursorOutOfBounds { pos, len: count });
        }
        self.mark = Some(pos);
        Ok(())
    }

    /// Removes the mark.
    pub fn clear_mark(&mut self)
        requires
            old(self)@.wf(),
        ensures
            final(self)@.wf(),
            final(self)@ == old(self)@.marked(None),
    {
        self.mark = None;
    }

    /// Exchanges the cursor and the mark. A mark that the text no longer reaches
    /// takes the cursor to the end.
    pub fn exchange_point_and_mark(&mut self) -> (r: Result<()>)
        requires
            old(self)@.wf(),
        ensures
            final(self)@.wf(),
            old(self)@.mark is None ==> r == Err::<(), OxidreadError>(blocked_at_start())
                && final(self)@ == old(self)@,
            old(self)@.mark is Some ==> r is Ok && final(self)@ == old(self)@.exchanged(),
    {
        match self.mark {
            None => Err(OxidreadError::CursorAtBoundary { side: BoundarySide::Start }),
            Some(mark) => {
                let count: usize = self.grapheme_count();
                let point: usize = self.cursor;
                self.cursor = advanced(mark, 0, count);
                self.mark = Some(point);
                Ok(())
            },
        }
    }

    // -----------------------------------------------------------------
    // Whole-line operations
    // -----------------------------------------------------------------

    /// Replaces the line by `text`, without recording that for undo, and moves
    /// the cursor to the end. The mark is removed; with `clear_undo` the undo
    /// stack is emptied too.
    pub fn replace_line(&mut self, text: &str, clear_undo: bool)
        requires
            old(self)@.wf(),
        ensures
            final(self)@.wf(),
            final(self)@ == LineState::holding(text@).with_log(
                if clear_undo {
                    undo::UndoLog::empty()
                } else {
                    old(self)@.log
                },
            ),
    {
        self.buf = text.to_owned();
        self.cursor = cluster::count_graphemes(self.buf.as_str());
        self.mark = None;
        if clear_undo {
            self.undo.clear();
        }
    }

    /// Empties the line, with its mark and its undo stack.
    pub fn clear(&mut self)
        ensures
            final(self)@.wf(),
            final(self)@ == LineState::blank(),
            final(self)@.count() == 0,
    {
        *self = LineBuffer::new();
    }

    // -----------------------------------------------------------------
    // Accessors
    // -----------------------------------------------------------------

    /// The whole line.
    pub fn as_str(&self) -> (r: &str)
        ensures
            r@ == self@.text,
    {
        self.buf.as_str()
    }

    /// How many grapheme clusters the line has.
    pub fn grapheme_count(&self) -> (r: usize)
        ensures
            r == self@.count(),
    {
        cluster::count_graphemes(self.buf.as_str())
    }

    /// How many bytes the line takes in UTF-8.
    pub fn len_bytes(&self) -> (r: usize)
        ensures
            r == cluster::byte_len(self@.text),
    {
        self.buf.as_str().as_bytes().len()
    }

    /// `true` if the line has no characters.
    pub fn is_empty(&self) -> (r: bool)
        ensures
            r == (self@.text.len() == 0),
    {
        self.buf.as_str().is_empty()
    }

    /// The cursor position.
    pub fn cursor(&self) -> (r: usize)
        ensures
            r == self@.cursor,
    {
        self.cursor
    }

    /// The mark position, if there is a mark.
    pub fn mark(&self) -> (r: Option<usize>)
        ensures
            r is Some == self@.mark is Some,
            r is Some ==> r->0 == self@.mark->0,
    {
        self.mark
    }

    /// `true` if the cursor is at the start of the line.
    pub fn at_start(&self) -> (r: bool)
        ensures
            r == (self@.cursor == 0),
    {
        self.cursor == 0
    }

    /// `true` if the cursor is at the end of the line.
    pub fn at_end(&self) -> (r: bool)
        ensures
            r == (self@.cursor == self@.count()),
    {
        self.cursor == self.grapheme_count()
    }

    /// How many terminal columns the line takes.
    pub fn display_width(&self) -> (r: usize)
        ensures
            r == width::column_width(self@.text),
            cluster::plain(self@.text) ==> r == self@.text.len(),
    {
        width::width_of(self.buf.as_str())
    }

    /// How many terminal columns the text before the cursor takes.
    pub fn cursor_display_width(&self) -> (r: usize)
        ensures
            r == width::column_width(cluster::prefix_text(self@.text, self@.cursor)),
            cluster::plain(self@.text) && self@.wf() ==> r == self@.cursor,
    {
        let prefix: String = self.grapheme_slice(0, self.cursor);
        assert(cluster::range_text(self@.text, 0, self@.cursor) =~= cluster::prefix_text(
            self@.text,
            self@.cursor,
        )) by {
            cluster::lemma_boundaries(self@.text, 0, self@.cursor);
        }
        proof {
            if cluster::plain(self@.text) && self@.wf() {
                cluster::lemma_plain_boundary(self@.text, self@.cursor);
            }
        }
        width::width_of(prefix.as_str())
    }

    /// The byte offset of the boundary before cluster `grapheme_idx`: the number
    /// of bytes of the line for the boundary behind its last cluster.
    pub fn grapheme_to_byte_offset(&self, grapheme_idx: usize) -> (r: Result<usize>)
        ensures
            grapheme_idx > self@.count() ==> r == Err::<usize, OxidreadError>(
                (OxidreadError::GraphemeOutOfRange {
                    index: grapheme_idx,
                    count: self@.count() as usize,
                }),
            ),
            grapheme_idx <= self@.count() ==> r is Ok && r->Ok_0 == cluster::byte_len(
                cluster::prefix_text(self@.text, grapheme_idx as nat),
            ),
    {
        let count: usize = self.grapheme_count();
        if grapheme_idx > count {
            return Err(OxidreadError::GraphemeOutOfRange { index: grapheme_idx, count });
        }
        Ok(cluster::byte_offset(self.buf.as_str(), grapheme_idx))
    }

    /// The clusters `start` up to `end` of the line, as far as they exist.
    pub fn grapheme_slice(&self, start: usize, end: usize) -> (r: String)
        ensures
            cluster::segmented(self@.text),
            r@ == cluster::range_text(
                self@.text,
                start as nat,
                if start <= end {
                    end as nat
                } else {
                    start as nat
                },
            ),
    {
        let parts: Vec<&str> = cluster::graphemes(self.buf.as_str());
        let r: String = cluster::join_clusters(&parts, start, end);
        proof {
            let text = self@.text;
            let n = cluster::cluster_count(text) as int;
            let upto = if start <= end {
                end as int
            } else {
                start as int
            };
            cluster::lemma_segmented(text, parts@);
            cluster::lemma_boundaries(
                text,
                cluster::least(start as int, n) as nat,
                cluster::least(upto, n) as nat,
            );
        }
        r
    }
}

} // verus!
