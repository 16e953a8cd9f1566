//! The undo stack of a line buffer.

use crate::readline::cluster;
use crate::readline::error::{OxidreadError, Result};
use vstd::prelude::*;
use vstd::string::*;

verus! {

/// Typed text is gathered into one undo entry only while that entry holds
/// fewer clusters than this.
pub const COALESCE_LIMIT: usize = 20;

/// A single undoable editing operation.
#[derive(Debug, PartialEq, Eq)]
pub enum UndoEntry {
    /// `text` was inserted before cluster `grapheme_pos`. To undo: delete as
    /// many clusters as `text` has, from there on.
    Insert { grapheme_pos: usize, text: String },
    /// `text` was deleted from cluster `grapheme_pos` on. To undo: insert it
    /// there again.
    Delete { grapheme_pos: usize, text: String },
    /// The start of a group of entries that are undone together.
    GroupBegin,
    /// The end of a group.
    GroupEnd,
}

/// What an [`UndoEntry`] stands for.
pub enum UndoAction {
    Insert { pos: nat, text: Seq<char> },
    Delete { pos: nat, text: Seq<char> },
    GroupBegin,
    GroupEnd,
}

impl View for UndoEntry {
    type V = UndoAction;

    open spec fn view(&self) -> UndoAction {
        match self {
            UndoEntry::Insert { grapheme_pos, text } => UndoAction::Insert {
                pos: *grapheme_pos as nat,
                text: text@,
            },
            UndoEntry::Delete { grapheme_pos, text } => UndoAction::Delete {
                pos: *grapheme_pos as nat,
                text: text@,
            },
            UndoEntry::GroupBegin => UndoAction::GroupBegin,
            UndoEntry::GroupEnd => UndoAction::GroupEnd,
        }
    }
}

impl Clone for UndoEntry {
    fn clone(&self) -> (r: Self)
        ensures
            r@ == self@,
    {
        match self {
            UndoEntry::Insert { grapheme_pos, text } => UndoEntry::Insert {
                grapheme_pos: *grapheme_pos,
                text: text.clone(),
            },
            UndoEntry::Delete { grapheme_pos, text } => UndoEntry::Delete {
                grapheme_pos: *grapheme_pos,
                text: text.clone(),
            },
            UndoEntry::GroupBegin => UndoEntry::GroupBegin,
            UndoEntry::GroupEnd => UndoEntry::GroupEnd,
        }
    }
}

/// What a sequence of entries stands for.
pub open spec fn actions_of(entries: Seq<UndoEntry>) -> Seq<UndoAction> {
    Seq::new(entries.len(), |i: int| entries[i]@)
}

/// `true` for insertions and deletions, `false` for group markers.
pub open spec fn is_edit(a: UndoAction) -> bool {
    a is Insert || a is Delete
}

/// The insertions and deletions among `actions`, in order.
pub open spec fn edits_of(actions: Seq<UndoAction>) -> Seq<UndoAction>
    decreases actions.len(),
{
    if actions.len() == 0 {
        Seq::empty()
    } else if is_edit(actions.last()) {
        edits_of(actions.drop_last()).push(actions.last())
    } else {
        edits_of(actions.drop_last())
    }
}

/// How many of `actions` stand before the group in which they end, where
/// `depth` group ends have been met behind them: 0 where the group was never
/// begun.
pub open spec fn group_floor(actions: Seq<UndoAction>, depth: nat) -> nat
    decreases actions.len(),
{
    if depth == 0 || actions.len() == 0 {
        actions.len()
    } else {
        match actions.last() {
            UndoAction::GroupBegin => group_floor(actions.drop_last(), (depth - 1) as nat),
            UndoAction::GroupEnd => group_floor(actions.drop_last(), depth + 1),
            _ => group_floor(actions.drop_last(), depth),
        }
    }
}

/// The contents of an undo stack: what was done, oldest first, and how many
/// groups are open.
pub struct UndoLog {
    pub actions: Seq<UndoAction>,
    pub depth: nat,
}

impl UndoLog {
    /// The log of a buffer that nothing was done to.
    pub open spec fn empty() -> UndoLog {
        UndoLog { actions: Seq::empty(), depth: 0 }
    }

    /// `true` when `a` continues the typing that the last action records:
    /// outside any group, one more cluster right behind what was inserted, as
    /// long as that is short.
    pub open spec fn continues(self, a: UndoAction) -> bool {
        &&& self.depth == 0
        &&& self.actions.len() > 0
        &&& a matches UndoAction::Insert { pos, text } && self.actions.last() matches
            UndoAction::Insert { pos: last_pos, text: last_text } && {
            &&& pos == last_pos + cluster::cluster_count(last_text)
            &&& cluster::cluster_count(text) == 1
            &&& cluster::cluster_count(last_text) < COALESCE_LIMIT
        }
    }

    /// The log once `a` was done too.
    pub open spec fn push(self, a: UndoAction) -> UndoLog {
        if self.continues(a) {
            let joined = UndoAction::Insert {
                pos: self.actions.last()->Insert_pos,
                text: self.actions.last()->Insert_text + a->Insert_text,
            };
            UndoLog { actions: self.actions.drop_last().push(joined), depth: self.depth }
        } else {
            UndoLog { actions: self.actions.push(a), depth: self.depth }
        }
    }

    /// The log once a group was begun.
    pub open spec fn begin_group(self) -> UndoLog {
        UndoLog { actions: self.actions.push(UndoAction::GroupBegin), depth: self.depth + 1 }
    }

    /// The log once the innermost open group was ended.
    pub open spec fn end_group(self) -> UndoLog {
        UndoLog {
            actions: self.actions.push(UndoAction::GroupEnd),
            depth: (self.depth - 1) as nat,
        }
    }

    /// How many actions the next undo leaves in the log.
    pub open spec fn kept(self) -> nat {
        if self.actions.len() == 0 {
            0
        } else if self.actions.last() is GroupEnd {
            group_floor(self.actions.drop_last(), 1)
        } else {
            (self.actions.len() - 1) as nat
        }
    }

    /// What the next undo takes back, oldest first: the last action, or, where
    /// that ends a group, all edits of the group.
    pub open spec fn undo_set(self) -> Seq<UndoAction> {
        let taken = self.actions.skip(self.kept() as int);
        if self.actions.last() is GroupEnd {
            edits_of(taken)
        } else {
            taken
        }
    }

    /// The log once the undo set was taken off it.
    pub open spec fn popped(self) -> UndoLog {
        UndoLog { actions: self.actions.take(self.kept() as int), depth: self.depth }
    }
}

/// The undo stack: entries in the order in which they were made, with nested
/// groups.
///
/// Entries are added with `push()`. `pop_undo_set()` takes off what is to be
/// undone next. `end_group()` without a matching `begin_group()` is an error.
#[derive(Debug)]
pub struct UndoStack {
    entries: Vec<UndoEntry>,
    /// How many groups are open.
    group_depth: usize,
}

impl View for UndoStack {
    type V = UndoLog;

    closed spec fn view(&self) -> UndoLog {
        UndoLog { actions: actions_of(self.entries@), depth: self.group_depth as nat }
    }
}

impl Default for UndoStack {
    fn default() -> (r: Self)
        ensures
            r@ == UndoLog::empty(),
    {
        UndoStack::new()
    }
}

impl Clone for UndoStack {
    fn clone(&self) -> (r: Self)
        ensures
            r@ == self@,
    {
        let mut entries: Vec<UndoEntry> = Vec::new();
        let mut i: usize = 0;
        while i < self.entries.len()
            invariant
                i <= self.entries@.len(),
                entries@.len() == i,
                forall|j: int| 0 <= j < i ==> (#[trigger] entries@[j])@ == self.entries@[j]@,
            decreases self.entries@.len() - i,
        {
            entries.push(self.entries[i].clone());
            i = i + 1;
        }
        assert(actions_of(entries@) =~= actions_of(self.entries@));
        UndoStack { entries, group_depth: self.group_depth }
    }
}

/// `true` when an insertion of `new_count` clusters at `new_pos` continues one
/// of `last_count` clusters at `last_pos`.
pub fn continues_typing(
    last_pos: usize,
    last_count: usize,
    new_pos: usize,
    new_count: usize,
) -> (r: bool)
    ensures
        r == (new_pos == last_pos + last_count && new_count == 1 && last_count < COALESCE_LIMIT),
{
    new_pos >= last_pos && new_pos - last_pos == last_count && new_count == 1 && last_count
        < COALESCE_LIMIT
}

/// The insertions and deletions among `entries`, the last one first.
fn edits_back(entries: Vec<UndoEntry>) -> (r: Vec<UndoEntry>)
    ensures
        actions_of(r@) == edits_of(actions_of(entries@)).reverse(),
{
    let mut rest: Vec<UndoEntry> = entries;
    let mut out: Vec<UndoEntry> = Vec::new();
    let ghost target = edits_of(actions_of(entries@)).reverse();
    assert(actions_of(out@) + edits_of(actions_of(rest@)).reverse() =~= target);
    loop
        invariant_except_break
            actions_of(out@) + edits_of(actions_of(rest@)).reverse() == target,
        ensures
            actions_of(out@) == target,
        decreases rest@.len(),
    {
        let ghost pending = actions_of(rest@);
        let ghost done = out@;
        match rest.pop() {
            None => {
                assert(edits_of(pending).reverse() =~= Seq::<UndoAction>::empty());
                assert(actions_of(out@) + Seq::<UndoAction>::empty() =~= actions_of(out@));
                break;
            },
            Some(entry) => {
                proof {
                    assert(pending.last() == entry@);
                    assert(pending.drop_last() =~= actions_of(rest@));
                }
                match entry {
                    UndoEntry::GroupBegin => {},
                    UndoEntry::GroupEnd => {},
                    edit => {
                        out.push(edit);
                        proof {
                            let others = edits_of(actions_of(rest@));
                            assert(actions_of(out@) =~= actions_of(done).push(edit@));
                            assert(actions_of(done) + others.push(edit@).reverse() =~= actions_of(
                                out@,
                            ) + others.reverse());
                        }
                    },
                }
            },
        }
    }
    out
}

impl UndoStack {
    /// An empty stack with no open group.
    pub fn new() -> (r: Self)
        ensures
            r@ == UndoLog::empty(),
    {
        let r = UndoStack { entries: Vec::new(), group_depth: 0 };
        assert(actions_of(r.entries@) =~= Seq::<UndoAction>::empty());
        r
    }

    /// Adds one entry. A single cluster typed right behind the text of the last
    /// insertion joins that entry, outside groups and while it is short.
    pub fn push(&mut self, entry: UndoEntry)
        ensures
            final(self)@ == old(self)@.push(entry@),
            old(self)@.depth == 0 && old(self)@.actions.len() > 0 && entry@ is Insert ==> (
            old(self)@.actions.last() matches UndoAction::Insert { text, .. }
                ==> cluster::segmented(text) && cluster::segmented(entry@->Insert_text)),
    {
        let ghost before = self.entries@;
        let ghost log = self@;
        let mut joins: bool = false;
        if self.group_depth == 0 && self.entries.len() > 0 {
            if let UndoEntry::Insert { grapheme_pos: new_pos, text: new_text } = &entry {
                if let UndoEntry::Insert { grapheme_pos: last_pos, text: last_text } =
                    &self.entries[self.entries.len() - 1] {
                    let last_count: usize = cluster::count_graphemes(last_text.as_str());
                    let new_count: usize = cluster::count_graphemes(new_text.as_str());
                    joins = continues_typing(*last_pos, last_count, *new_pos, new_count);
                }
            }
        }
        assert(joins == log.continues(entry@));
        if joins {
            if let Some(UndoEntry::Insert { grapheme_pos, text }) = self.entries.pop() {
                if let UndoEntry::Insert { grapheme_pos: _, text: new_text } = entry {
                    let mut joined: String = text;
                    joined.append(new_text.as_str());
                    self.entries.push(UndoEntry::Insert { grapheme_pos, text: joined });
                }
            }
        } else {
            self.entries.push(entry);
        }
        assert(self@.actions =~= log.push(entry@).actions);
    }

    /// Begins a group: everything up to the matching `end_group()` is undone as
    /// one.
    pub fn begin_group(&mut self)
        requires
            old(self)@.depth < usize::MAX,
        ensures
            final(self)@ == old(self)@.begin_group(),
    {
        self.entries.push(UndoEntry::GroupBegin);
        self.group_depth = self.group_depth + 1;
        assert(self@.actions =~= old(self)@.begin_group().actions);
    }

    /// Ends a group. Without an open group nothing changes and an error comes
    /// back.
    pub fn end_group(&mut self) -> (r: Result<()>)
        ensures
            old(self)@.depth == 0 ==> r is Err && r->Err_0 is UndoGroupMismatch && final(self)@
                == old(self)@,
            old(self)@.depth > 0 ==> r is Ok && final(self)@ == old(self)@.end_group(),
    {
        if self.group_depth == 0 {
            return Err(OxidreadError::UndoGroupMismatch);
        }
        self.entries.push(UndoEntry::GroupEnd);
        self.group_depth = self.group_depth - 1;
        assert(self@.actions =~= old(self)@.end_group().actions);
        Ok(())
    }

    /// `true` if there is nothing to undo.
    pub fn is_empty(&self) -> (r: bool)
        ensures
            r == (self@.actions.len() == 0),
    {
        self.entries.len() == 0
    }

    /// Takes off what is to be undone next and returns it in reverse, ready to
    /// apply: the newest entry first. Where the last entry ends a group, that is
    /// every edit of the group; where that group was never begun, every edit on the
    /// stack.
    pub fn pop_undo_set(&mut self) -> (r: Result<Vec<UndoEntry>>)
        ensures
            old(self)@.actions.len() == 0 ==> r is Err && r->Err_0 is UndoStackEmpty
                && final(self)@ == old(self)@,
            old(self)@.actions.len() > 0 ==> r is Ok && actions_of(r->Ok_0@)
                == old(self)@.undo_set().reverse() && final(self)@ == old(self)@.popped(),
    {
        let ghost log = self@;
        let total: usize = self.entries.len();
        let top: UndoEntry = match self.entries.pop() {
            None => {
                return Err(OxidreadError::UndoStackEmpty);
            },
            Some(entry) => entry,
        };
        let ghost below = actions_of(self.entries@);
        assert(below =~= log.actions.drop_last());
        let mut set: Vec<UndoEntry> = Vec::new();
        if let UndoEntry::GroupEnd = top {
            let size: usize = total - 1;
            let mut open: usize = 1;
            let mut floor: usize = size;
            assert(below.take(floor as int) =~= below);
            while floor > 0 && open > 0
                invariant
                    floor <= size == self.entries@.len(),
                    size < usize::MAX,
                    open <= 1 + (size - floor),
                    below == actions_of(self.entries@),
                    group_floor(below.take(floor as int), open as nat) == group_floor(below, 1),
                decreases floor,
            {
                proof {
                    assert(below.take(floor as int).drop_last() =~= below.take(floor - 1));
                    assert(below.take(floor as int).last() == self.entries@[floor - 1]@);
                }
                match &self.entries[floor - 1] {
                    UndoEntry::GroupBegin => {
                        open = open - 1;
                    },
                    UndoEntry::GroupEnd => {
                        open = open + 1;
                    },
                    _ => {},
                }
                floor = floor - 1;
            }
            assert(log.kept() == floor);
            let taken: Vec<UndoEntry> = self.entries.split_off(floor);
            let ghost moved = actions_of(taken@);
            set = edits_back(taken);
            proof {
                let whole = log.actions.skip(floor as int);
                assert(whole.drop_last() =~= moved);
                assert(whole.last() is GroupEnd);
                assert(self@.actions =~= log.popped().actions);
            }
        } else {
            set.push(top);
            assert(actions_of(set@) =~= log.undo_set().reverse());
            assert(self@.actions =~= log.popped().actions);
        }
        Ok(set)
    }

    /// Removes every entry and closes every group.
    pub fn clear(&mut self)
        ensures
            final(self)@ == UndoLog::empty(),
    {
        self.entries.clear();
        self.group_depth = 0;
        assert(self@.actions =~= Seq::<UndoAction>::empty());
    }
}

} // verus!
