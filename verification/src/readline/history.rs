//! Command history: storage, navigation, search, and the text of the history
//! file.

use crate::readline::error::{OxidreadError, Result};
use crate::readline::text;
use std::path::PathBuf;
use vstd::prelude::*;
use vstd::string::*;

verus! {

/// `std::path::PathBuf`, carried as the configured place of the history file.
#[verifier::external_type_specification]
#[verifier::external_body]
pub struct ExPathBuf(std::path::PathBuf);

/// Identity of the library, for version banners.
pub const OXIDREAD_IDENTITY: &'static str =
    "oxidread 0.1.0 — pure Rust readline+ncurses | Zainium OS | (c) 2025 Ali Zain <alizain.x404@gmail.com> | GPL-3.0-or-later";

/// Name of the default history file.
pub const ZAINIUM_HISTORY_FILENAME: &'static str = ".zainium_history";

/// Default maximum number of history entries kept in memory.
pub const ZAINIUM_HISTORY_MAX: usize = 2_000;

/// Default maximum number of entries written to the history file on save.
pub const ZAINIUM_HISTFILE_MAX: usize = 5_000;

/// The identity of the library, for the version output of a tool that embeds it.
pub fn zainium_info() -> (r: &'static str)
    ensures
        r@ == OXIDREAD_IDENTITY@,
{
    OXIDREAD_IDENTITY
}

// ---------------------------------------------------------------------
// Entries
// ---------------------------------------------------------------------

/// One command of the history.
#[derive(Debug, PartialEq, Eq)]
pub struct HistoryEntry {
    /// The command text.
    pub line: String,
    /// When the command was run, in seconds since the Unix epoch, if known.
    pub timestamp: Option<u64>,
}

/// What a [`HistoryEntry`] holds.
pub struct Command {
    pub line: Seq<char>,
    pub timestamp: Option<u64>,
}

impl View for HistoryEntry {
    type V = Command;

    open spec fn view(&self) -> Command {
        Command { line: self.line@, timestamp: self.timestamp }
    }
}

impl Clone for HistoryEntry {
    fn clone(&self) -> (r: Self)
        ensures
            r@ == self@,
    {
        HistoryEntry { line: self.line.clone(), timestamp: self.timestamp }
    }
}

impl HistoryEntry {
    /// An entry without a timestamp.
    pub fn new<T: Into<String>>(line: T) -> (r: Self)
        ensures
            call_ensures(T::into, (line,), r.line),
            r.timestamp is None,
    {
        HistoryEntry { line: line.into(), timestamp: None }
    }

    /// An entry with a Unix timestamp.
    pub fn with_timestamp<T: Into<String>>(line: T, ts: u64) -> (r: Self)
        ensures
            call_ensures(T::into, (line,), r.line),
            r.timestamp == Some(ts),
    {
        HistoryEntry { line: line.into(), timestamp: Some(ts) }
    }
}

/// What a sequence of entries holds.
pub open spec fn commands(entries: Seq<HistoryEntry>) -> Seq<Command> {
    Seq::new(entries.len(), |i: int| entries[i]@)
}

/// The position during up- and down-arrow traversal.
#[derive(Debug, Clone, Copy, PartialEq, Eq, Structural)]
pub enum NavigationCursor {
    /// Not navigating: on the line being typed.
    AtEnd,
    /// Showing the entry with this index.
    InHistory { idx: usize },
}

impl Default for NavigationCursor {
    fn default() -> (r: Self)
        ensures
            r == NavigationCursor::AtEnd,
    {
        NavigationCursor::AtEnd
    }
}

// ---------------------------------------------------------------------
// The state of a history, and what each operation makes of it
// ---------------------------------------------------------------------

/// What an optional string holds.
pub open spec fn optional_text(s: Option<String>) -> Option<Seq<char>> {
    match s {
        Some(t) => Some(t@),
        None => None,
    }
}

/// What an optional string slice holds.
pub open spec fn optional_slice(s: Option<&str>) -> Option<Seq<char>> {
    match s {
        Some(t) => Some(t@),
        None => None,
    }
}

/// The state of a history.
pub struct HistoryState {
    /// The commands, oldest first.
    pub entries: Seq<Command>,
    pub max_entries: nat,
    pub cursor: NavigationCursor,
    /// The line that was being typed when navigation began.
    pub draft: Option<Seq<char>>,
    pub dedup: bool,
    pub file_path: Option<PathBuf>,
    pub file_max: usize,
}

impl HistoryState {
    /// What holds of every history: it is within its capacity, and every command
    /// is non-empty text that does not end in whitespace.
    pub open spec fn wf(self) -> bool {
        &&& self.entries.len() <= self.max_entries
        &&& forall|i: int|
            0 <= i < self.entries.len() ==> {
                &&& (#[trigger] self.entries[i]).line.len() > 0
                &&& text::trim_end(self.entries[i].line) == self.entries[i].line
            }
        &&& self.cursor matches NavigationCursor::InHistory { idx } ==> idx < usize::MAX
    }

    /// An empty history.
    pub open spec fn fresh(max_entries: nat, file_path: Option<PathBuf>) -> HistoryState {
        HistoryState {
            entries: Seq::empty(),
            max_entries,
            cursor: NavigationCursor::AtEnd,
            draft: None,
            dedup: true,
            file_path,
            file_max: ZAINIUM_HISTFILE_MAX,
        }
    }

    /// `true` when `line` is to be skipped as a repetition of the last command.
    pub open spec fn repeats(self, line: Seq<char>) -> bool {
        self.dedup && self.entries.len() > 0 && self.entries.last().line == line
    }

    /// The history with one more command, and without its oldest one where it
    /// was full.
    pub open spec fn extended(self, command: Command) -> HistoryState {
        let kept = if self.entries.len() >= self.max_entries {
            self.entries.drop_first()
        } else {
            self.entries
        };
        HistoryState { entries: kept.push(command), ..self }
    }

    /// The history once `line` was run: trimmed, it is added unless it is empty
    /// or a repetition.
    pub open spec fn pushed(self, line: Seq<char>) -> HistoryState {
        let command = text::trim(line);
        if command.len() == 0 || self.repeats(command) {
            self
        } else {
            self.extended(Command { line: command, timestamp: None })
        }
    }

    /// The history without the command at `idx`.
    pub open spec fn without(self, idx: int) -> HistoryState {
        HistoryState { entries: self.entries.remove(idx), ..self }
    }

    /// The history with another navigation position.
    pub open spec fn showing(self, idx: usize) -> HistoryState {
        HistoryState { cursor: NavigationCursor::InHistory { idx }, ..self }
    }

    /// The command at `idx`, if there is one.
    pub open spec fn command_at(self, idx: int) -> Option<Command> {
        if 0 <= idx < self.entries.len() {
            Some(self.entries[idx])
        } else {
            None
        }
    }

    /// One step towards older commands. The first step keeps the line being
    /// typed as the draft.
    pub open spec fn stepped_back(self, line: Option<Seq<char>>) -> HistoryState {
        if self.entries.len() == 0 {
            self
        } else {
            match self.cursor {
                NavigationCursor::AtEnd => HistoryState {
                    cursor: NavigationCursor::InHistory {
                        idx: (self.entries.len() - 1) as usize,
                    },
                    draft: line,
                    ..self
                },
                NavigationCursor::InHistory { idx } => if idx == 0 {
                    self
                } else {
                    self.showing((idx - 1) as usize)
                },
            }
        }
    }

    /// The command that a step towards older ones shows: none at the oldest.
    pub open spec fn older(self) -> Option<Command> {
        match self.cursor {
            NavigationCursor::AtEnd => self.command_at(self.entries.len() - 1),
            NavigationCursor::InHistory { idx } => self.command_at(idx - 1),
        }
    }

    /// One step towards newer commands; behind the newest one navigation ends.
    pub open spec fn stepped_forward(self) -> HistoryState {
        match self.cursor {
            NavigationCursor::AtEnd => self,
            NavigationCursor::InHistory { idx } => if idx + 1 >= self.entries.len() {
                HistoryState { cursor: NavigationCursor::AtEnd, ..self }
            } else {
                self.showing((idx + 1) as usize)
            },
        }
    }

    /// The command that a step towards newer ones shows: none behind the newest.
    pub open spec fn newer(self) -> Option<Command> {
        match self.cursor {
            NavigationCursor::AtEnd => None,
            NavigationCursor::InHistory { idx } => self.command_at(idx + 1),
        }
    }

    /// The history with navigation ended and the draft forgotten.
    pub open spec fn reset(self) -> HistoryState {
        HistoryState { cursor: NavigationCursor::AtEnd, draft: None, ..self }
    }

    /// Searches towards older commands begin before this index.
    pub open spec fn back_bound(self) -> int {
        match self.cursor {
            NavigationCursor::AtEnd => self.entries.len() as int,
            NavigationCursor::InHistory { idx } => idx as int,
        }
    }
}

// ---------------------------------------------------------------------
// The format of the history file
// ---------------------------------------------------------------------

/// The timestamp that a line of the history file holds: `# ` and a number.
pub open spec fn timestamp_of(line: Seq<char>) -> Option<u64> {
    if seq!['#', ' '].is_prefix_of(line) {
        text::parsed_number(text::trim(line.skip(2)))
    } else {
        None
    }
}

/// `true` when a line of the history file holds a command.
pub open spec fn is_command(line: Seq<char>) -> bool {
    timestamp_of(line) is None && text::trim_end(line).len() > 0
}

/// The state of reading a history file.
pub struct Loading {
    pub state: HistoryState,
    /// The timestamp that stands for the next command.
    pub pending: Option<u64>,
    /// How many commands were added.
    pub count: nat,
}

impl Loading {
    /// The state once one more line was read.
    pub open spec fn after(self, line: Seq<char>) -> Loading {
        let command = text::trim_end(line);
        if timestamp_of(line) is Some {
            Loading { pending: timestamp_of(line), ..self }
        } else if command.len() == 0 || self.state.repeats(command) {
            Loading { pending: None, ..self }
        } else {
            Loading {
                state: self.state.extended(Command { line: command, timestamp: self.pending }),
                pending: None,
                count: self.count + 1,
            }
        }
    }
}

/// The state once the given lines of a history file were read into `state`.
pub open spec fn loaded(state: HistoryState, lines: Seq<Seq<char>>) -> Loading
    decreases lines.len(),
{
    if lines.len() == 0 {
        Loading { state, pending: None, count: 0 }
    } else {
        loaded(state, lines.drop_last()).after(lines.last())
    }
}

/// The `n` newest of `entries`: all of them where there are no more.
pub open spec fn newest(entries: Seq<Command>, n: nat) -> Seq<Command> {
    if entries.len() <= n {
        entries
    } else {
        entries.skip(entries.len() - n)
    }
}

/// What the history file holds of one command.
pub open spec fn record(command: Command) -> Seq<char> {
    let stamp = match command.timestamp {
        Some(seconds) => seq!['#', ' '] + text::decimal(seconds as nat) + seq!['\n'],
        None => Seq::empty(),
    };
    stamp + command.line + seq!['\n']
}

/// The text of a history file with the given commands.
pub open spec fn file_text_of(entries: Seq<Command>) -> Seq<char>
    decreases entries.len(),
{
    if entries.len() == 0 {
        Seq::empty()
    } else {
        file_text_of(entries.drop_last()) + record(entries.last())
    }
}

/// The timestamp that a line of the history file holds, if it holds one.
fn line_timestamp(line: &str) -> (r: Option<u64>)
    ensures
        r == timestamp_of(line@),
{
    let chars: Vec<char> = text::chars_of(line);
    let marked: bool = chars.len() >= 2 && chars[0] == '#' && chars[1] == ' ';
    assert(marked == seq!['#', ' '].is_prefix_of(line@)) by {
        if marked {
            assert(line@.subrange(0, 2) =~= seq!['#', ' ']);
        } else if line@.len() >= 2 {
            assert(seq!['#', ' '][0] == '#' && seq!['#', ' '][1] == ' ');
            assert(line@.subrange(0, 2)[0] == line@[0] && line@.subrange(0, 2)[1] == line@[1]);
        }
    }
    if !marked {
        return None;
    }
    let rest: String = text::string_of(&chars, 2, chars.len());
    assert(rest@ =~= line@.skip(2));
    let number: String = text::trimmed(rest.as_str());
    text::parse_number(number.as_str())
}

/// `true` when a history file with the given text holds a command.
pub fn holds_commands(content: &str) -> (r: bool)
    ensures
        r == exists|i: int|
            0 <= i < text::lines_of(content@).len() && is_command(
                #[trigger] text::lines_of(content@)[i],
            ),
{
    let lines: Vec<String> = text::split_lines(content);
    let ghost all = text::lines_of(content@);
    let mut i: usize = 0;
    while i < lines.len()
        invariant
            i <= lines@.len(),
            text::views(lines@) == all,
            all == text::lines_of(content@),
            forall|j: int| 0 <= j < i ==> !is_command(#[trigger] all[j]),
        decreases lines@.len() - i,
    {
        let line: &str = lines[i].as_str();
        assert(all[i as int] == line@);
        if line_timestamp(line).is_none() && !text::end_trimmed(line).as_str().is_empty() {
            return true;
        }
        i = i + 1;
    }
    false
}

// ---------------------------------------------------------------------
// The history
// ---------------------------------------------------------------------

/// Command history: storage, navigation and search.
#[derive(Debug)]
pub struct History {
    entries: Vec<HistoryEntry>,
    max_entries: usize,
    cursor: NavigationCursor,
    saved_draft: Option<String>,
    /// If true, a command identical to the most recent one is not added.
    pub dedup: bool,
    /// Where the history is kept between sessions, if anywhere.
    pub file_path: Option<PathBuf>,
    /// Maximum number of entries to write on save.
    pub file_max: usize,
}

impl View for History {
    type V = HistoryState;

    closed spec fn view(&self) -> HistoryState {
        HistoryState {
            entries: commands(self.entries@),
            max_entries: self.max_entries as nat,
            cursor: self.cursor,
            draft: optional_text(self.saved_draft),
            dedup: self.dedup,
            file_path: self.file_path,
            file_max: self.file_max,
        }
    }
}

impl Clone for History {
    fn clone(&self) -> (r: Self)
        ensures
            r@ == (HistoryState { file_path: r@.file_path, ..self@ }),
            r@.file_path is Some == self@.file_path is Some,
            r@.file_path is Some ==> cloned::<PathBuf>(self@.file_path->0, r@.file_path->0),
    {
        let r = History {
            entries: self.entries.clone(),
            max_entries: self.max_entries,
            cursor: self.cursor,
            saved_draft: match &self.saved_draft {
                Some(draft) => Some(draft.clone()),
                None => None,
            },
            dedup: self.dedup,
            file_path: self.file_path.clone(),
            file_max: self.file_max,
        };
        assert(r@.entries =~= self@.entries);
        r
    }
}

impl History {
    /// An empty history with room for `max_entries` commands.
    pub fn new(max_entries: usize) -> (r: Self)
        ensures
            r@.wf(),
            r@ == HistoryState::fresh(max_entries as nat, None),
    {
        let r = History {
            entries: Vec::new(),
            max_entries,
            cursor: NavigationCursor::AtEnd,
            saved_draft: None,
            dedup: true,
            file_path: None,
            file_max: ZAINIUM_HISTFILE_MAX,
        };
        assert(r@.entries =~= Seq::<Command>::empty());
        r
    }

    /// An empty history with the default capacity, kept in the given file.
    pub fn zainium_default(file_path: PathBuf) -> (r: Self)
        ensures
            r@.wf(),
            r@ == HistoryState::fresh(ZAINIUM_HISTORY_MAX as nat, Some(file_path)),
    {
        let mut r = History::new(ZAINIUM_HISTORY_MAX);
        r.file_path = Some(file_path);
        r
    }

    // -----------------------------------------------------------------
    // Changing the history
    // -----------------------------------------------------------------

    /// `true` when `line` is to be skipped as a repetition of the last command.
    fn is_repetition(&self, line: &str) -> (r: bool)
        ensures
            r == self@.repeats(line@),
    {
        let n: usize = self.entries.len();
        self.dedup && n > 0 && text::same_text(self.entries[n - 1].line.as_str(), line)
    }

    /// Adds `entry`, and drops the oldest command where the history is full.
    fn extend(&mut self, entry: HistoryEntry)
        requires
            old(self)@.wf(),
            old(self)@.max_entries > 0,
            entry.line@.len() > 0,
            text::trim_end(entry.line@) == entry.line@,
        ensures
            final(self)@.wf(),
            final(self)@ == old(self)@.extended(entry@),
    {
        if self.entries.len() >= self.max_entries {
            self.entries.remove(0);
        }
        self.entries.push(entry);
        assert(self@.entries =~= old(self)@.extended(entry@).entries);
    }

    /// Adds a command to the history. It is trimmed first. Empty commands are
    /// ignored, and with `dedup` so are those identical to the most recent one.
    /// Where the history is full, the oldest command is dropped.
    pub fn push(&mut self, line: &str)
        requires
            old(self)@.wf(),
            old(self)@.max_entries > 0 || text::trim(line@).len() == 0,
        ensures
            final(self)@.wf(),
            final(self)@ == old(self)@.pushed(line@),
    {
        let command: String = text::trimmed(line);
        proof {
            text::lemma_trim_end(text::trim_start(line@));
        }
        if command.as_str().is_empty() || self.is_repetition(command.as_str()) {
            return;
        }
        self.extend(HistoryEntry { line: command, timestamp: None });
    }

    /// Removes and returns the command at `idx`.
    pub fn remove(&mut self, idx: usize) -> (r: Result<HistoryEntry>)
        requires
            old(self)@.wf(),
        ensures
            final(self)@.wf(),
            idx >= old(self)@.entries.len() ==> r == Err::<HistoryEntry, OxidreadError>(
                (OxidreadError::HistoryOutOfRange {
                    index: idx,
                    len: old(self)@.entries.len() as usize,
                }),
            ) && final(self)@ == old(self)@,
            idx < old(self)@.entries.len() ==> r is Ok && r->Ok_0@
                == old(self)@.entries[idx as int] && final(self)@
                == old(self)@.without(idx as int),
    {
        if idx >= self.entries.len() {
            return Err(OxidreadError::HistoryOutOfRange { index: idx, len: self.entries.len() });
        }
        let entry: HistoryEntry = self.entries.remove(idx);
        assert(self@.entries =~= old(self)@.entries.remove(idx as int));
        Ok(entry)
    }

    /// Removes every command and ends navigation.
    pub fn clear(&mut self)
        requires
            old(self)@.wf(),
        ensures
            final(self)@.wf(),
            final(self)@ == (HistoryState { entries: Seq::empty(), ..old(self)@.reset() }),
    {
        self.entries.clear();
        self.cursor = NavigationCursor::AtEnd;
        self.saved_draft = None;
        assert(self@.entries =~= Seq::<Command>::empty());
    }

    // -----------------------------------------------------------------
    // Settings
    // -----------------------------------------------------------------

    /// Sets whether commands identical to the most recent one are skipped.
    pub fn set_dedup(&mut self, on: bool)
        requires
            old(self)@.wf(),
        ensures
            final(self)@.wf(),
            final(self)@ == (HistoryState { dedup: on, ..old(self)@ }),
    {
        self.dedup = on;
    }

    /// Sets where the history is kept between sessions.
    pub fn set_file_path(&mut self, file_path: Option<PathBuf>)
        requires
            old(self)@.wf(),
        ensures
            final(self)@.wf(),
            final(self)@ == (HistoryState { file_path, ..old(self)@ }),
    {
        self.file_path = file_path;
    }

    /// Sets how many entries a save writes at most.
    pub fn set_file_max(&mut self, file_max: usize)
        requires
            old(self)@.wf(),
        ensures
            final(self)@.wf(),
            final(self)@ == (HistoryState { file_max, ..old(self)@ }),
    {
        self.file_max = file_max;
    }

    // -----------------------------------------------------------------
    // Navigation
    // -----------------------------------------------------------------

    /// Steps to the previous (older) command and returns it, or `None` at the
    /// oldest one. `current_line` is the line being typed; the first step saves
    /// it as the draft.
    pub fn prev(&mut self, current_line: Option<&str>) -> (r: Option<&HistoryEntry>)
        requires
            old(self)@.wf(),
        ensures
            final(self)@.wf(),
            final(self)@ == old(self)@.stepped_back(optional_slice(current_line)),
            r is Some == old(self)@.older() is Some,
            r is Some ==> r->0@ == old(self)@.older()->0,
    {
        if self.entries.len() == 0 {
            return None;
        }
        match self.cursor {
            NavigationCursor::AtEnd => {
                self.saved_draft = match current_line {
                    Some(line) => Some(line.to_owned()),
                    None => None,
                };
                let idx: usize = self.entries.len() - 1;
                self.cursor = NavigationCursor::InHistory { idx };
                Some(&self.entries[idx])
            },
            NavigationCursor::InHistory { idx } => {
                if idx == 0 {
                    return None;
                }
                let older: usize = idx - 1;
                self.cursor = NavigationCursor::InHistory { idx: older };
                if older < self.entries.len() {
                    Some(&self.entries[older])
                } else {
                    None
                }
            },
        }
    }

    /// Steps to the next (newer) command and returns it. Behind the newest one
    /// navigation ends and `None` comes back: the caller then restores the draft.
    pub fn next(&mut self) -> (r: Option<&HistoryEntry>)
        requires
            old(self)@.wf(),
        ensures
            final(self)@.wf(),
            final(self)@ == old(self)@.stepped_forward(),
            r is Some == old(self)@.newer() is Some,
            r is Some ==> r->0@ == old(self)@.newer()->0,
    {
        match self.cursor {
            NavigationCursor::AtEnd => None,
            NavigationCursor::InHistory { idx } => {
                let newer: usize = idx + 1;
                if newer >= self.entries.len() {
                    self.cursor = NavigationCursor::AtEnd;
                    None
                } else {
                    self.cursor = NavigationCursor::InHistory { idx: newer };
                    Some(&self.entries[newer])
                }
            },
        }
    }

    /// `true` if navigation is back at the line being typed.
    pub fn is_at_end(&self) -> (r: bool)
        ensures
            r == (self@.cursor == NavigationCursor::AtEnd),
    {
        self.cursor == NavigationCursor::AtEnd
    }

    /// Takes the saved draft, if there is one.
    pub fn take_saved_draft(&mut self) -> (r: Option<String>)
        requires
            old(self)@.wf(),
        ensures
            final(self)@.wf(),
            optional_text(r) == old(self)@.draft,
            final(self)@ == (HistoryState { draft: None, ..old(self)@ }),
    {
        self.saved_draft.take()
    }

    /// Ends navigation and forgets the draft: for use once a line was accepted.
    pub fn reset_cursor(&mut self)
        requires
            old(self)@.wf(),
        ensures
            final(self)@.wf(),
            final(self)@ == old(self)@.reset(),
    {
        self.cursor = NavigationCursor::AtEnd;
        self.saved_draft = None;
    }

    // -----------------------------------------------------------------
    // Search
    // -----------------------------------------------------------------

    /// The index before which searches towards older commands begin.
    fn search_start(&self) -> (r: usize)
        ensures
            r == self@.back_bound(),
    {
        match self.cursor {
            NavigationCursor::AtEnd => self.entries.len(),
            NavigationCursor::InHistory { idx } => idx,
        }
    }

    /// The newest command before the current position that contains `needle`,
    /// with its index.
    pub fn search_backward(&self, needle: &str) -> (r: Option<(usize, &HistoryEntry)>)
        requires
            self@.back_bound() <= self@.entries.len(),
        ensures
            match r {
                Some((i, entry)) => {
                    &&& i < self@.back_bound()
                    &&& entry@ == self@.entries[i as int]
                    &&& text::occurs_in(self@.entries[i as int].line, needle@)
                    &&& forall|j: int|
                        i < j < self@.back_bound() ==> !text::occurs_in(
                            (#[trigger] self@.entries[j]).line,
                            needle@,
                        )
                },
                None => forall|j: int|
                    0 <= j < self@.back_bound() ==> !text::occurs_in(
                        (#[trigger] self@.entries[j]).line,
                        needle@,
                    ),
            },
    {
        let mut i: usize = self.search_start();
        while i > 0
            invariant
                i <= self@.back_bound() <= self@.entries.len(),
                self@.entries == commands(self.entries@),
                forall|j: int|
                    i <= j < self@.back_bound() ==> !text::occurs_in(
                        (#[trigger] self@.entries[j]).line,
                        needle@,
                    ),
            decreases i,
        {
            i = i - 1;
            let entry: &HistoryEntry = &self.entries[i];
            if text::has_text(entry.line.as_str(), needle) {
                return Some((i, entry));
            }
        }
        None
    }

    /// The oldest command behind the current position that contains `needle`,
    /// with its index. Nothing is behind the line being typed.
    pub fn search_forward(&self, needle: &str) -> (r: Option<(usize, &HistoryEntry)>)
        requires
            self@.cursor matches NavigationCursor::InHistory { idx } ==> idx < self@.entries.len(),
        ensures
            self@.cursor == NavigationCursor::AtEnd ==> r is None,
            self@.cursor matches NavigationCursor::InHistory { idx } ==> match r {
                Some((i, entry)) => {
                    &&& idx < i < self@.entries.len()
                    &&& entry@ == self@.entries[i as int]
                    &&& text::occurs_in(self@.entries[i as int].line, needle@)
                    &&& forall|j: int|
                        idx < j < i ==> !text::occurs_in(
                            (#[trigger] self@.entries[j]).line,
                            needle@,
                        )
                },
                None => forall|j: int|
                    idx < j < self@.entries.len() ==> !text::occurs_in(
                        (#[trigger] self@.entries[j]).line,
                        needle@,
                    ),
            },
    {
        let from: usize = match self.cursor {
            NavigationCursor::AtEnd => {
                return None;
            },
            NavigationCursor::InHistory { idx } => idx,
        };
        let total: usize = self.entries.len();
        let mut i: usize = from + 1;
        while i < total
            invariant
                from < i <= total == self@.entries.len(),
                self@.cursor == (NavigationCursor::InHistory { idx: from }),
                self@.entries == commands(self.entries@),
                forall|j: int|
                    from < j < i ==> !text::occurs_in(
                        (#[trigger] self@.entries[j]).line,
                        needle@,
                    ),
            decreases total - i,
        {
            let entry: &HistoryEntry = &self.entries[i];
            if text::has_text(entry.line.as_str(), needle) {
                return Some((i, entry));
            }
            i = i + 1;
        }
        None
    }

    /// The newest command before the current position that begins with `prefix`,
    /// with its index.
    pub fn search_prefix_backward(&self, prefix: &str) -> (r: Option<(usize, &HistoryEntry)>)
        requires
            self@.back_bound() <= self@.entries.len(),
        ensures
            match r {
                Some((i, entry)) => {
                    &&& i < self@.back_bound()
                    &&& entry@ == self@.entries[i as int]
                    &&& prefix@.is_prefix_of(self@.entries[i as int].line)
                    &&& forall|j: int|
                        i < j < self@.back_bound() ==> !prefix@.is_prefix_of(
                            (#[trigger] self@.entries[j]).line,
                        )
                },
                None => forall|j: int|
                    0 <= j < self@.back_bound() ==> !prefix@.is_prefix_of(
                        (#[trigger] self@.entries[j]).line,
                    ),
            },
    {
        let mut i: usize = self.search_start();
        while i > 0
            invariant
                i <= self@.back_bound() <= self@.entries.len(),
                self@.entries == commands(self.entries@),
                forall|j: int|
                    i <= j < self@.back_bound() ==> !prefix@.is_prefix_of(
                        (#[trigger] self@.entries[j]).line,
                    ),
            decreases i,
        {
            i = i - 1;
            let entry: &HistoryEntry = &self.entries[i];
            if text::begins_with(entry.line.as_str(), prefix) {
                return Some((i, entry));
            }
        }
        None
    }

    // -----------------------------------------------------------------
    // The history file
    // -----------------------------------------------------------------

    /// Takes in one line of a history file. `pending` is the timestamp that
    /// stands for the next command. Returns the timestamp that is pending behind
    /// the line, and whether the line added a command.
    fn load_line(&mut self, pending: Option<u64>, line: &str) -> (r: (Option<u64>, bool))
        requires
            old(self)@.wf(),
            old(self)@.max_entries > 0 || !is_command(line@),
        ensures
            final(self)@.wf(),
            final(self)@ == (Loading { state: old(self)@, pending, count: 0 }).after(line@).state,
            r.0 == (Loading { state: old(self)@, pending, count: 0 }).after(line@).pending,
            r.1 == ((Loading { state: old(self)@, pending, count: 0 }).after(line@).count == 1),
    {
        let stamp: Option<u64> = line_timestamp(line);
        if stamp.is_some() {
            return (stamp, false);
        }
        let command: String = text::end_trimmed(line);
        proof {
            text::lemma_trim_end(line@);
        }
        if command.as_str().is_empty() || self.is_repetition(command.as_str()) {
            return (None, false);
        }
        self.extend(HistoryEntry { line: command, timestamp: pending });
        (None, true)
    }

    /// Adds the commands of a history file with the given text, and returns how
    /// many were added. A line holds one command; a line `# <seconds>` is the
    /// timestamp of the command on the next line. Trailing whitespace is dropped,
    /// empty lines are skipped, and so are repetitions where `dedup` is set.
    pub fn load_text(&mut self, content: &str) -> (r: usize)
        requires
            old(self)@.wf(),
            old(self)@.max_entries > 0 || forall|i: int|
                0 <= i < text::lines_of(content@).len() ==> !is_command(
                    #[trigger] text::lines_of(content@)[i],
                ),
        ensures
            final(self)@.wf(),
            final(self)@ == loaded(old(self)@, text::lines_of(content@)).state,
            r == loaded(old(self)@, text::lines_of(content@)).count,
    {
        let lines: Vec<String> = text::split_lines(content);
        let ghost all = text::lines_of(content@);
        let mut pending: Option<u64> = None;
        let mut count: usize = 0;
        let mut i: usize = 0;
        assert(all.take(0) =~= Seq::<Seq<char>>::empty());
        while i < lines.len()
            invariant
                i <= lines@.len(),
                count <= i,
                text::views(lines@) == all,
                all == text::lines_of(content@),
                self@.wf(),
                self@.max_entries == old(self)@.max_entries,
                old(self)@.max_entries > 0 || forall|j: int|
                    0 <= j < all.len() ==> !is_command(#[trigger] all[j]),
                (Loading { state: self@, pending, count: count as nat }) == loaded(
                    old(self)@,
                    all.take(i as int),
                ),
            decreases lines@.len() - i,
        {
            proof {
                assert(all[i as int] == lines@[i as int]@);
                assert(all.take(i + 1).drop_last() =~= all.take(i as int));
                assert(all.take(i + 1).last() == all[i as int]);
            }
            let (stamp, added) = self.load_line(pending, lines[i].as_str());
            pending = stamp;
            if added {
                count = count + 1;
            }
            i = i + 1;
        }
        assert(all.take(i as int) =~= all);
        count
    }

    /// The text of a history file with the `max_lines` most recent commands: one
    /// command per line, after a line `# <seconds>` where it has a timestamp.
    pub fn file_text(&self, max_lines: usize) -> (r: String)
        ensures
            r@ == file_text_of(newest(self@.entries, max_lines as nat)),
    {
        let total: usize = self.entries.len();
        let from: usize = total.saturating_sub(max_lines);
        let ghost kept = newest(self@.entries, max_lines as nat);
        let mut out = String::new();
        let mut i: usize = from;
        assert(kept.take(0) =~= Seq::<Command>::empty());
        while i < total
            invariant
                from <= i <= total == self.entries@.len(),
                kept == self@.entries.skip(from as int),
                self@.entries == commands(self.entries@),
                out@ == file_text_of(kept.take(i - from)),
            decreases total - i,
        {
            let entry: &HistoryEntry = &self.entries[i];
            let ghost before = out@;
            match entry.timestamp {
                Some(stamp) => {
                    out.append("# ");
                    text::push_decimal(&mut out, stamp);
                    out.append("\n");
                },
                None => {},
            }
            out.append(entry.line.as_str());
            out.append("\n");
            proof {
                reveal_strlit("# ");
                reveal_strlit("\n");
                assert("# "@ =~= seq!['#', ' ']);
                assert("\n"@ =~= seq!['\n']);
                assert(kept[i - from] == entry@);
                assert(kept.take(i - from + 1).drop_last() =~= kept.take(i - from));
                assert(out@ =~= before + record(entry@));
            }
            i = i + 1;
        }
        assert(kept.take(i - from) =~= kept);
        out
    }

    /// What to write to the configured history file: the most recent commands, at
    /// most `file_max`, or `None` where no file is configured.
    pub fn text_to_save(&self) -> (r: Option<String>)
        ensures
            r is Some == self@.file_path is Some,
            r is Some ==> r->0@ == file_text_of(
                newest(self@.entries, self@.file_max as nat),
            ),
    {
        match &self.file_path {
            Some(_) => Some(self.file_text(self.file_max)),
            None => None,
        }
    }

    /// The text that adds the `n` most recent commands to a history file, or
    /// `None` where there is nothing to add.
    pub fn append_text(&self, n: usize) -> (r: Option<String>)
        ensures
            r is None == (self@.entries.len() == 0 || n == 0),
            r is Some ==> r->0@ == file_text_of(newest(self@.entries, n as nat)),
    {
        if self.entries.len() == 0 || n == 0 {
            None
        } else {
            Some(self.file_text(n))
        }
    }

    // -----------------------------------------------------------------
    // Reading the history
    // -----------------------------------------------------------------

    /// The number of commands.
    pub fn len(&self) -> (r: usize)
        ensures
            r == self@.entries.len(),
    {
        self.entries.len()
    }

    /// `true` if the history is empty.
    pub fn is_empty(&self) -> (r: bool)
        ensures
            r == (self@.entries.len() == 0),
    {
        self.entries.len() == 0
    }

    /// The number of commands that the history has room for.
    pub fn max_entries(&self) -> (r: usize)
        ensures
            r == self@.max_entries,
    {
        self.max_entries
    }

    /// The command at `idx`, where 0 is the oldest.
    pub fn get(&self, idx: usize) -> (r: Option<&HistoryEntry>)
        ensures
            r is Some == self@.command_at(idx as int) is Some,
            r is Some ==> r->0@ == self@.command_at(idx as int)->0,
    {
        if idx < self.entries.len() {
            Some(&self.entries[idx])
        } else {
            None
        }
    }

    /// The commands, oldest first.
    pub fn iter(&self) -> (r: std::slice::Iter<'_, HistoryEntry>)
        ensures
            vstd::std_specs::iter::IteratorSpec::decrease(&r) is Some,
            vstd::std_specs::iter::IteratorSpec::initial_value_relation(&r, &r),
            vstd::std_specs::iter::IteratorSpec::remaining(&r).len() == self@.entries.len(),
            forall|i: int|
                0 <= i < self@.entries.len() ==> (
                #[trigger] vstd::std_specs::iter::IteratorSpec::remaining(&r)[i])@
                    == self@.entries[i],
    {
        self.entries.iter()
    }

    /// The commands as a slice, oldest first.
    pub fn as_slice(&self) -> (r: &[HistoryEntry])
        ensures
            commands(r@) == self@.entries,
    {
        self.entries.as_slice()
    }
}

} // verus!
