//! What holds of a command history as a whole: of its bounds, of walking through
//! it, and of writing it to a file and reading it back.

use crate::readline::history;
use crate::readline::history::{Command, HistoryState, Loading, NavigationCursor};
use crate::readline::text;
use vstd::prelude::*;

verus! {

// ---------------------------------------------------------------------
// Adding commands
// ---------------------------------------------------------------------

/// Nothing is left of a trimmed text exactly where it is all whitespace.
proof fn lemma_trim_blank(s: Seq<char>)
    ensures
        (text::trim(s).len() == 0) == text::all_white_space(s),
    decreases s.len(),
{
    if s.len() > 0 {
        if text::white_space(s.first()) {
            lemma_trim_blank(s.drop_first());
            if text::all_white_space(s.drop_first()) {
                assert forall|i: int| 0 <= i < s.len() implies text::white_space(
                    #[trigger] s[i],
                ) by {
                    if i > 0 {
                        assert(text::white_space(s.drop_first()[i - 1]));
                    }
                }
            }
        } else {
            lemma_trim_end_keeps(s);
            assert(!text::white_space(s[0]));
        }
    }
}

/// A text that does not begin with whitespace keeps its first character when its
/// end is trimmed.
proof fn lemma_trim_end_keeps(s: Seq<char>)
    requires
        s.len() > 0,
        !text::white_space(s.first()),
    ensures
        text::trim_end(s).len() > 0,
    decreases s.len(),
{
    if text::white_space(s.last()) {
        assert(s.len() > 1);
        lemma_trim_end_keeps(s.drop_last());
    }
}

/// Blank lines are never added.
pub proof fn law_blank_line_ignored(state: HistoryState, line: Seq<char>)
    requires
        text::all_white_space(line),
    ensures
        state.pushed(line) == state,
{
    lemma_trim_blank(line);
}

/// With `dedup`, running a command a second time changes nothing.
pub proof fn law_repeated_push(state: HistoryState, line: Seq<char>)
    requires
        state.dedup,
    ensures
        state.pushed(line).pushed(line) == state.pushed(line),
{
}

/// A line that is neither blank nor a repetition is added, trimmed, behind the
/// others, and the history keeps the newest commands that it has room for.
pub proof fn law_push_adds(state: HistoryState, line: Seq<char>)
    requires
        state.wf(),
        state.max_entries > 0,
        !text::all_white_space(line),
        !state.repeats(text::trim(line)),
    ensures
        state.pushed(line) == (HistoryState {
            entries: history::newest(
                state.entries.push(Command { line: text::trim(line), timestamp: None }),
                state.max_entries,
            ),
            ..state
        }),
{
    lemma_trim_blank(line);
    lemma_extended(state, Command { line: text::trim(line), timestamp: None });
}

/// Adding a command keeps the newest ones that there is room for.
proof fn lemma_extended(state: HistoryState, command: Command)
    requires
        state.entries.len() <= state.max_entries,
        state.max_entries > 0,
    ensures
        state.extended(command).entries == history::newest(
            state.entries.push(command),
            state.max_entries,
        ),
{
    assert(state.extended(command).entries =~= history::newest(
        state.entries.push(command),
        state.max_entries,
    ));
}

// ---------------------------------------------------------------------
// Navigation
// ---------------------------------------------------------------------

/// The history after one step towards older commands for each of `lines`, which
/// are the lines handed in.
pub open spec fn walked_back(state: HistoryState, lines: Seq<Option<Seq<char>>>) -> HistoryState
    decreases lines.len(),
{
    if lines.len() == 0 {
        state
    } else {
        walked_back(state, lines.drop_last()).stepped_back(lines.last())
    }
}

/// The history after `n` steps towards newer commands.
pub open spec fn walked_forward(state: HistoryState, n: nat) -> HistoryState
    decreases n,
{
    if n == 0 {
        state
    } else {
        walked_forward(state, (n - 1) as nat).stepped_forward()
    }
}

/// From the line being typed, the `n`-th step back shows the `n`-th newest
/// command, keeps the line of the first step as the draft, and changes nothing
/// else.
pub proof fn law_walk_back(state: HistoryState, lines: Seq<Option<Seq<char>>>)
    requires
        state.cursor == NavigationCursor::AtEnd,
        state.entries.len() <= usize::MAX,
        0 < lines.len() <= state.entries.len(),
    ensures
        walked_back(state, lines) == (HistoryState { draft: lines[0], ..state }).showing(
            (state.entries.len() - lines.len()) as usize,
        ),
        walked_back(state, lines.drop_last()).older() == Some(
            state.entries[state.entries.len() - lines.len()],
        ),
    decreases lines.len(),
{
    if lines.len() > 1 {
        law_walk_back(state, lines.drop_last());
        assert(lines.drop_last()[0] == lines[0]);
    }
}

/// Behind the oldest command a step back shows nothing and changes nothing.
pub proof fn law_walk_back_stops(state: HistoryState, line: Option<Seq<char>>)
    requires
        state.cursor == (NavigationCursor::InHistory { idx: 0 }) || state.entries.len() == 0,
    ensures
        state.stepped_back(line) == state,
        state.older() is None,
{
}

/// As many steps forward as were made back lead to the line being typed again,
/// with the draft that the first step back saved.
pub proof fn law_walk_back_and_forth(state: HistoryState, lines: Seq<Option<Seq<char>>>)
    requires
        state.cursor == NavigationCursor::AtEnd,
        state.entries.len() <= usize::MAX,
        0 < lines.len() <= state.entries.len(),
    ensures
        walked_forward(walked_back(state, lines), lines.len()) == (HistoryState {
            draft: lines[0],
            ..state
        }),
{
    law_walk_back(state, lines);
    let n = (lines.len() - 1) as nat;
    lemma_walk_forward(walked_back(state, lines), n);
}

/// Steps forward that stay within the history move the position by their number.
proof fn lemma_walk_forward(state: HistoryState, n: nat)
    requires
        state.cursor is InHistory,
        state.cursor->idx + n < state.entries.len() <= usize::MAX,
    ensures
        walked_forward(state, n) == state.showing((state.cursor->idx + n) as usize),
    decreases n,
{
    if n > 0 {
        lemma_walk_forward(state, (n - 1) as nat);
    }
}

/// A step back from a command, followed by a step forward, shows the command
/// again and leaves the history as it was.
pub proof fn law_step_back_and_forth(state: HistoryState, line: Option<Seq<char>>)
    requires
        state.wf(),
        state.cursor matches NavigationCursor::InHistory { idx } && 0 < idx
            < state.entries.len(),
    ensures
        state.stepped_back(line).stepped_forward() == state,
        state.stepped_back(line).newer() == state.command_at(state.cursor->idx as int),
{
}

// ---------------------------------------------------------------------
// The history file
// ---------------------------------------------------------------------

/// Adding commands to the end of a file gives the file of all commands.
pub proof fn law_file_text_joins(first: Seq<Command>, second: Seq<Command>)
    ensures
        history::file_text_of(first + second) == history::file_text_of(first)
            + history::file_text_of(second),
    decreases second.len(),
{
    if second.len() == 0 {
        assert(first + second =~= first);
        assert(history::file_text_of(first) + Seq::<char>::empty() =~= history::file_text_of(
            first,
        ));
    } else {
        law_file_text_joins(first, second.drop_last());
        assert((first + second).drop_last() =~= first + second.drop_last());
        assert(history::file_text_of(first) + history::file_text_of(second)
            =~= history::file_text_of(first) + history::file_text_of(second.drop_last())
            + history::record(second.last()));
    }
}

/// A file with all but the newest `n` commands, with the newest `n` appended, is
/// the file with all commands.
pub proof fn law_append_completes_file(entries: Seq<Command>, n: nat)
    requires
        n <= entries.len(),
    ensures
        history::file_text_of(entries.take(entries.len() - n)) + history::file_text_of(
            history::newest(entries, n),
        ) == history::file_text_of(entries),
{
    let older = entries.take(entries.len() - n);
    let newer = history::newest(entries, n);
    law_file_text_joins(older, newer);
    assert(older + newer =~= entries);
}

/// `true` when a command can be told from the rest of a history file: it is one
/// line, and does not read as a timestamp.
pub open spec fn storable(command: Command) -> bool {
    &&& !command.line.contains('\n')
    &&& history::timestamp_of(command.line) is None
}

/// `true` when no command of `entries` repeats the one before it.
pub open spec fn no_repetition(entries: Seq<Command>) -> bool {
    forall|i: int|
        0 < i < entries.len() ==> (#[trigger] entries[i]).line != entries[i - 1].line
}

/// The lines that stand for one command in a history file.
spec fn record_lines(command: Command) -> Seq<Seq<char>> {
    match command.timestamp {
        Some(seconds) => seq![seq!['#', ' '] + text::decimal(seconds as nat), command.line],
        None => seq![command.line],
    }
}

/// The lines of a history file.
spec fn file_lines(entries: Seq<Command>) -> Seq<Seq<char>>
    decreases entries.len(),
{
    if entries.len() == 0 {
        Seq::empty()
    } else {
        file_lines(entries.drop_last()) + record_lines(entries.last())
    }
}

/// One line and what follows it.
proof fn lemma_first_line(line: Seq<char>, rest: Seq<char>)
    requires
        !line.contains('\n'),
    ensures
        text::lines_of(line + seq!['\n'] + rest) == seq![text::without_carriage_return(line)]
            + text::lines_of(rest),
{
    let s = line + seq!['\n'] + rest;
    assert forall|i: int| 0 <= i < line.len() implies s[i] != '\n' by {
        assert(line.contains(line[i]));
    }
    text::lemma_line_feed_unique(s, line.len() as int);
    assert(s.take(line.len() as int) =~= line);
    assert(s.skip(line.len() as int + 1) =~= rest);
}

/// The lines of a text that ends in a line feed come before those of what
/// follows it.
proof fn lemma_lines_join(first: Seq<char>, second: Seq<char>)
    requires
        first.len() > 0 ==> first.last() == '\n',
    ensures
        text::lines_of(first + second) == text::lines_of(first) + text::lines_of(second),
    decreases first.len(),
{
    if first.len() == 0 {
        assert(first + second =~= second);
        assert(text::lines_of(first) + text::lines_of(second) =~= text::lines_of(second));
    } else {
        text::lemma_line_feed_at(first);
        let n = text::line_feed_at(first);
        if n == first.len() {
            assert(first[first.len() - 1] != '\n');
        }
        let line = first.take(n);
        let rest = first.skip(n + 1);
        assert(!line.contains('\n'));
        assert(first =~= line + seq!['\n'] + rest);
        assert(first + second =~= line + seq!['\n'] + (rest + second));
        lemma_first_line(line, rest);
        lemma_first_line(line, rest + second);
        lemma_lines_join(rest, second);
        assert(text::lines_of(first + second) =~= text::lines_of(first) + text::lines_of(second));
    }
}

/// The line `# <seconds>` reads as the timestamp that was written.
proof fn lemma_timestamp_line(seconds: u64)
    ensures
        history::timestamp_of(seq!['#', ' '] + text::decimal(seconds as nat)) == Some(seconds),
        !(seq!['#', ' '] + text::decimal(seconds as nat)).contains('\n'),
        text::without_carriage_return(seq!['#', ' '] + text::decimal(seconds as nat)) == seq![
            '#',
            ' ',
        ] + text::decimal(seconds as nat),
{
    let digits = text::decimal(seconds as nat);
    let line = seq!['#', ' '] + digits;
    text::lemma_decimal(seconds as nat);
    text::law_number_round_trip(seconds);
    assert(line.skip(2) =~= digits);
    assert(line.subrange(0, 2) =~= seq!['#', ' ']);
    assert(text::is_digit(digits[0]));
    assert(text::is_digit(digits[digits.len() - 1]));
    assert(text::trim(digits) == digits);
    assert forall|i: int| 0 <= i < line.len() implies line[i] != '\n' by {
        if i >= 2 {
            assert(text::is_digit(digits[i - 2]));
        }
    }
    assert(line.last() == digits.last());
}

/// The lines of the text that stands for one command.
proof fn lemma_record(command: Command)
    requires
        storable(command),
        command.line.len() > 0,
        text::trim_end(command.line) == command.line,
    ensures
        text::lines_of(history::record(command)) == record_lines(command),
        history::record(command).last() == '\n',
{
    let line = command.line;
    let empty = Seq::<char>::empty();
    text::lemma_trim_end(line);
    assert(text::without_carriage_return(line) == line);
    lemma_first_line(line, empty);
    assert(line + seq!['\n'] + empty =~= line + seq!['\n']);
    assert(text::lines_of(line + seq!['\n']) =~= seq![line]);
    match command.timestamp {
        Some(seconds) => {
            let stamp = seq!['#', ' '] + text::decimal(seconds as nat);
            lemma_timestamp_line(seconds);
            lemma_first_line(stamp, line + seq!['\n']);
            assert(history::record(command) =~= stamp + seq!['\n'] + (line + seq!['\n']));
            assert(seq![stamp] + seq![line] =~= seq![stamp, line]);
        },
        None => {
            assert(history::record(command) =~= line + seq!['\n']);
        },
    }
}

/// The text of a history file splits into the lines that stand for its commands.
proof fn lemma_file_lines(entries: Seq<Command>)
    requires
        forall|i: int|
            0 <= i < entries.len() ==> {
                &&& storable(#[trigger] entries[i])
                &&& entries[i].line.len() > 0
                &&& text::trim_end(entries[i].line) == entries[i].line
            },
    ensures
        text::lines_of(history::file_text_of(entries)) == file_lines(entries),
        entries.len() > 0 ==> history::file_text_of(entries).last() == '\n',
    decreases entries.len(),
{
    if entries.len() > 0 {
        let front = entries.drop_last();
        assert forall|i: int| 0 <= i < front.len() implies {
            &&& storable(#[trigger] front[i])
            &&& front[i].line.len() > 0
            &&& text::trim_end(front[i].line) == front[i].line
        } by {
            assert(front[i] == entries[i]);
        }
        lemma_file_lines(front);
        lemma_record(entries.last());
        if front.len() == 0 {
            assert(history::file_text_of(front).len() == 0);
        }
        lemma_lines_join(history::file_text_of(front), history::record(entries.last()));
    }
}

/// Reading the lines that stand for one command adds the command.
proof fn lemma_load_record(state: HistoryState, lines: Seq<Seq<char>>, command: Command)
    requires
        storable(command),
        command.line.len() > 0,
        text::trim_end(command.line) == command.line,
        history::loaded(state, lines).pending is None,
        !history::loaded(state, lines).state.repeats(command.line),
    ensures
        history::loaded(state, lines + record_lines(command)) == (Loading {
            state: history::loaded(state, lines).state.extended(command),
            pending: None,
            count: history::loaded(state, lines).count + 1,
        }),
{
    let all = lines + record_lines(command);
    match command.timestamp {
        Some(seconds) => {
            let stamp = seq!['#', ' '] + text::decimal(seconds as nat);
            lemma_timestamp_line(seconds);
            assert(all.drop_last().drop_last() =~= lines);
            assert(all.drop_last().last() == stamp);
            assert(history::loaded(state, all.drop_last()) == history::loaded(state, lines).after(
                stamp,
            ));
            assert(all.last() == command.line);
        },
        None => {
            assert(all.drop_last() =~= lines);
            assert(all.last() == command.line);
        },
    }
}

/// Reading back a saved history file adds the saved commands, with their
/// timestamps and in their order, behind those that the reading history had. It
/// keeps as many of the newest as it has room for, and counts every command
/// that was read.
///
/// This is so for commands of one line that do not read as a timestamp, where
/// no command repeats the one before it or the reading history takes
/// repetitions.
pub proof fn law_load_saved(saved: HistoryState, max_lines: nat, reader: HistoryState)
    requires
        saved.wf(),
        reader.wf(),
        reader.max_entries > 0,
        forall|i: int|
            0 <= i < history::newest(saved.entries, max_lines).len() ==> storable(
                #[trigger] history::newest(saved.entries, max_lines)[i],
            ),
        reader.dedup ==> no_repetition(
            reader.entries + history::newest(saved.entries, max_lines),
        ),
    ensures
        ({
            let written = history::newest(saved.entries, max_lines);
            let lines = text::lines_of(history::file_text_of(written));
            history::loaded(reader, lines) == (Loading {
                state: HistoryState {
                    entries: history::newest(reader.entries + written, reader.max_entries),
                    ..reader
                },
                pending: None,
                count: written.len(),
            })
        }),
{
    let written = history::newest(saved.entries, max_lines);
    assert forall|i: int| 0 <= i < written.len() implies {
        &&& storable(#[trigger] written[i])
        &&& written[i].line.len() > 0
        &&& text::trim_end(written[i].line) == written[i].line
    } by {
        let at = i + saved.entries.len() - written.len();
        assert(written[i] == saved.entries[at]);
    }
    lemma_file_lines(written);
    lemma_load_file(reader, written);
}

/// Reading the lines of a history file.
proof fn lemma_load_file(reader: HistoryState, written: Seq<Command>)
    requires
        reader.entries.len() <= reader.max_entries,
        reader.max_entries > 0,
        forall|i: int|
            0 <= i < written.len() ==> {
                &&& storable(#[trigger] written[i])
                &&& written[i].line.len() > 0
                &&& text::trim_end(written[i].line) == written[i].line
            },
        reader.dedup ==> no_repetition(reader.entries + written),
    ensures
        history::loaded(reader, file_lines(written)) == (Loading {
            state: HistoryState {
                entries: history::newest(reader.entries + written, reader.max_entries),
                ..reader
            },
            pending: None,
            count: written.len(),
        }),
    decreases written.len(),
{
    if written.len() == 0 {
        assert(reader.entries + written =~= reader.entries);
    } else {
        let front = written.drop_last();
        let command = written.last();
        let before = reader.entries + front;
        let all = reader.entries + written;
        assert forall|i: int| 0 <= i < front.len() implies {
            &&& storable(#[trigger] front[i])
            &&& front[i].line.len() > 0
            &&& text::trim_end(front[i].line) == front[i].line
        } by {
            assert(front[i] == written[i]);
        }
        assert(all =~= before.push(command));
        if reader.dedup {
            assert forall|i: int| 0 < i < before.len() implies (#[trigger] before[i]).line
                != before[i - 1].line by {
                assert(before[i] == all[i] && before[i - 1] == all[i - 1]);
            }
        }
        lemma_load_file(reader, front);
        let state = history::loaded(reader, file_lines(front)).state;
        if state.entries.len() > 0 {
            assert(state.entries.last() == before.last());
            assert(all[all.len() - 1] == command);
        }
        lemma_load_record(reader, file_lines(front), command);
        lemma_extended(state, command);
        assert(history::newest(state.entries.push(command), reader.max_entries)
            =~= history::newest(all, reader.max_entries));
    }
}

/// A history that is saved whole and read into a new one with as much room comes
/// back with the same commands.
pub proof fn law_save_load_round_trip(saved: HistoryState, max_lines: nat)
    requires
        saved.wf(),
        saved.max_entries > 0,
        saved.entries.len() <= max_lines,
        forall|i: int| 0 <= i < saved.entries.len() ==> storable(#[trigger] saved.entries[i]),
        no_repetition(saved.entries),
    ensures
        ({
            let content = history::file_text_of(history::newest(saved.entries, max_lines));
            let reader = HistoryState::fresh(saved.max_entries, saved.file_path);
            let result = history::loaded(reader, text::lines_of(content));
            &&& result.state.entries == saved.entries
            &&& result.count == saved.entries.len()
        }),
{
    let reader = HistoryState::fresh(saved.max_entries, saved.file_path);
    assert(reader.entries + saved.entries =~= saved.entries);
    law_load_saved(saved, max_lines, reader);
}

// ---------------------------------------------------------------------
// Repetitions
// ---------------------------------------------------------------------

/// With `dedup`, a line whose trimmed text is that of the last command changes
/// nothing, whatever timestamp that command has.
pub proof fn law_push_repetition(state: HistoryState, line: Seq<char>)
    requires
        state.dedup,
        state.entries.len() > 0,
        state.entries.last().line == text::trim(line),
    ensures
        state.pushed(line) == state,
{
}

/// Any other line that is not blank becomes the newest command, trimmed and
/// without a timestamp; the oldest command leaves where there was no room. The
/// rest of the history stays as it is.
pub proof fn law_push_new_command(state: HistoryState, line: Seq<char>)
    requires
        state.wf(),
        state.max_entries > 0,
        text::trim(line).len() > 0,
        !state.dedup || state.entries.len() == 0 || state.entries.last().line != text::trim(line),
    ensures
        state.pushed(line) == (HistoryState {
            entries: (if state.entries.len() < state.max_entries {
                state.entries
            } else {
                state.entries.skip(1)
            }).push(Command { line: text::trim(line), timestamp: None }),
            ..state
        }),
{
    assert(state.entries.drop_first() =~= state.entries.skip(1));
}

/// With `dedup`, pushing a line leaves no command that equals the one before it,
/// where there was none.
pub proof fn law_push_keeps_apart(state: HistoryState, line: Seq<char>)
    requires
        state.wf(),
        state.max_entries > 0,
        state.dedup,
        forall|i: int|
            0 < i < state.entries.len() ==> (#[trigger] state.entries[i]).line != state.entries[i
                - 1].line,
    ensures
        forall|i: int|
            0 < i < state.pushed(line).entries.len() ==> (#[trigger] state.pushed(
                line,
            ).entries[i]).line != state.pushed(line).entries[i - 1].line,
{
    let command = text::trim(line);
    let new = state.pushed(line).entries;
    if command.len() > 0 && !(state.entries.len() > 0 && state.entries.last().line == command) {
        lemma_extended_apart(state, Command { line: command, timestamp: None });
    }
    assert forall|i: int| 0 < i < new.len() implies (#[trigger] new[i]).line != new[i
        - 1].line by {}
}

/// Adding a command that differs from the last one leaves no repetition.
proof fn lemma_extended_apart(state: HistoryState, command: Command)
    requires
        state.entries.len() <= state.max_entries,
        state.max_entries > 0,
        state.entries.len() == 0 || state.entries.last().line != command.line,
        forall|i: int|
            0 < i < state.entries.len() ==> (#[trigger] state.entries[i]).line != state.entries[i
                - 1].line,
    ensures
        forall|i: int|
            0 < i < state.extended(command).entries.len() ==> (#[trigger] state.extended(
                command,
            ).entries[i]).line != state.extended(command).entries[i - 1].line,
{
    let old = state.entries;
    let new = state.extended(command).entries;
    let cut: int = if old.len() >= state.max_entries {
        1
    } else {
        0
    };
    assert forall|i: int| 0 < i < new.len() implies (#[trigger] new[i]).line != new[i
        - 1].line by {
        assert(new[i - 1] == old[i - 1 + cut]);
        if i < new.len() - 1 {
            assert(new[i] == old[i + cut]);
        }
    }
}

/// With `dedup`, reading a history file leaves no command that equals the one
/// before it, where there was none.
pub proof fn law_load_keeps_apart(state: HistoryState, lines: Seq<Seq<char>>)
    requires
        state.wf(),
        state.max_entries > 0,
        state.dedup,
        forall|i: int|
            0 < i < state.entries.len() ==> (#[trigger] state.entries[i]).line != state.entries[i
                - 1].line,
    ensures
        ({
            let new = history::loaded(state, lines).state;
            &&& new.dedup
            &&& new.max_entries == state.max_entries
            &&& new.entries.len() <= new.max_entries
            &&& forall|i: int|
                0 < i < new.entries.len() ==> (#[trigger] new.entries[i]).line != new.entries[i
                    - 1].line
        }),
    decreases lines.len(),
{
    if lines.len() > 0 {
        law_load_keeps_apart(state, lines.drop_last());
        let before = history::loaded(state, lines.drop_last());
        let command = text::trim_end(lines.last());
        if before.state.entries.len() == 0 || before.state.entries.last().line != command {
            lemma_extended_apart(
                before.state,
                Command { line: command, timestamp: before.pending },
            );
        }
    }
}

// ---------------------------------------------------------------------
// Reading a history file line by line
// ---------------------------------------------------------------------

/// A file is read line by line, with no timestamp pending at its start.
pub proof fn law_load_by_lines(state: HistoryState, lines: Seq<Seq<char>>, line: Seq<char>)
    ensures
        history::loaded(state, Seq::empty()) == (Loading { state, pending: None, count: 0 }),
        history::loaded(state, lines.push(line)) == history::loaded(state, lines).after(line),
{
    assert(lines.push(line).drop_last() =~= lines);
}

/// Only a line that begins with `# ` can be a timestamp: it is one where the
/// trimmed rest is a number.
pub proof fn law_timestamp_line(rest: Seq<char>, line: Seq<char>)
    requires
        line.len() < 2 || line[0] != '#' || line[1] != ' ',
    ensures
        history::timestamp_of(seq!['#', ' '] + rest) == text::parsed_number(text::trim(rest)),
        history::timestamp_of(line) is None,
{
    let mark = seq!['#', ' '];
    let stamp = mark + rest;
    assert(stamp.subrange(0, 2) =~= mark);
    assert(stamp.skip(2) =~= rest);
    if mark.is_prefix_of(line) {
        assert(line.subrange(0, 2)[0] == line[0] && line.subrange(0, 2)[1] == line[1]);
    }
}

/// A timestamp is kept for the next line, in place of one that was pending, and
/// adds nothing.
pub proof fn law_load_timestamp(reading: Loading, rest: Seq<char>)
    requires
        text::parsed_number(text::trim(rest)) is Some,
    ensures
        reading.after(seq!['#', ' '] + rest) == (Loading {
            pending: text::parsed_number(text::trim(rest)),
            ..reading
        }),
{
    law_timestamp_line(rest, Seq::empty());
}

/// A blank line adds nothing, and drops a pending timestamp.
pub proof fn law_load_blank(reading: Loading, line: Seq<char>)
    requires
        forall|i: int| 0 <= i < line.len() ==> text::white_space(#[trigger] line[i]),
    ensures
        reading.after(line) == (Loading { pending: None, ..reading }),
{
    crate::readline::text_laws::law_trim_blank(line);
    if line.len() >= 2 {
        assert(text::white_space(line[0]));
    }
    law_timestamp_line(Seq::empty(), line);
}

/// With `dedup`, a line whose text, without trailing whitespace, is that of the
/// last command adds nothing, whatever the timestamps; a pending one is dropped.
pub proof fn law_load_repetition(reading: Loading, line: Seq<char>)
    requires
        reading.state.dedup,
        reading.state.entries.len() > 0,
        reading.state.entries.last().line == text::trim_end(line),
        history::timestamp_of(line) is None,
    ensures
        reading.after(line) == (Loading { pending: None, ..reading }),
{
}

/// Any other line becomes the newest command, without its trailing whitespace and
/// with the pending timestamp; the oldest command leaves where there was no room.
pub proof fn law_load_command(reading: Loading, line: Seq<char>)
    requires
        reading.state.wf(),
        reading.state.max_entries > 0,
        history::timestamp_of(line) is None,
        text::trim_end(line).len() > 0,
        !reading.state.dedup || reading.state.entries.len() == 0
            || reading.state.entries.last().line != text::trim_end(line),
    ensures
        reading.after(line) == (Loading {
            state: HistoryState {
                entries: (if reading.state.entries.len() < reading.state.max_entries {
                    reading.state.entries
                } else {
                    reading.state.entries.skip(1)
                }).push(Command { line: text::trim_end(line), timestamp: reading.pending }),
                ..reading.state
            },
            pending: None,
            count: reading.count + 1,
        }),
{
    assert(reading.state.entries.drop_first() =~= reading.state.entries.skip(1));
}

/// A line of the file holds a command exactly where it is no timestamp and has a
/// character that is not whitespace.
pub proof fn law_command_line(line: Seq<char>)
    ensures
        history::is_command(line) <==> history::timestamp_of(line) is None && exists|i: int|
            0 <= i < line.len() && !text::white_space(#[trigger] line[i]),
{
    if exists|i: int| 0 <= i < line.len() && !text::white_space(#[trigger] line[i]) {
        let i = choose|i: int| 0 <= i < line.len() && !text::white_space(#[trigger] line[i]);
        lemma_trim_end_reaches(line, i);
    } else {
        crate::readline::text_laws::law_trim_blank(line);
    }
}

/// Trimming the end does not reach a character that is not whitespace.
proof fn lemma_trim_end_reaches(s: Seq<char>, i: int)
    requires
        0 <= i < s.len(),
        !text::white_space(s[i]),
    ensures
        text::trim_end(s).len() > i,
    decreases s.len(),
{
    if text::white_space(s.last()) {
        assert(s.drop_last()[i] == s[i]);
        lemma_trim_end_reaches(s.drop_last(), i);
    }
}

// ---------------------------------------------------------------------
// Writing a history file
// ---------------------------------------------------------------------

/// A command adds its line to the file, behind the line `# <seconds>` where it has
/// a timestamp.
pub proof fn law_file_text(entries: Seq<Command>, line: Seq<char>, seconds: u64)
    ensures
        history::file_text_of(Seq::empty()) == Seq::<char>::empty(),
        history::file_text_of(entries.push(Command { line, timestamp: None }))
            == history::file_text_of(entries) + line + seq!['\n'],
        history::file_text_of(entries.push(Command { line, timestamp: Some(seconds) }))
            == history::file_text_of(entries) + seq!['#', ' '] + text::decimal(seconds as nat)
            + seq!['\n'] + line + seq!['\n'],
{
    let bare = Command { line, timestamp: None };
    let dated = Command { line, timestamp: Some(seconds) };
    assert(entries.push(bare).drop_last() =~= entries);
    assert(entries.push(dated).drop_last() =~= entries);
    assert(history::file_text_of(entries.push(bare)) =~= history::file_text_of(entries) + line
        + seq!['\n']);
    assert(history::file_text_of(entries.push(dated)) =~= history::file_text_of(entries) + seq![
        '#',
        ' ',
    ] + text::decimal(seconds as nat) + seq!['\n'] + line + seq!['\n']);
}

/// The newest commands are as many of the last ones as asked for, or all.
pub proof fn law_newest(older: Seq<Command>, newer: Seq<Command>, more: nat)
    ensures
        history::newest(older + newer, newer.len()) == newer,
        history::newest(newer, newer.len() + more) == newer,
{
    assert(history::newest(older + newer, newer.len()) =~= newer);
}

// ---------------------------------------------------------------------
// Single steps
// ---------------------------------------------------------------------

/// A step back from the line being typed shows the newest command and keeps the
/// line as the draft; from a command it shows the one before it; at the oldest
/// command and in an empty history it shows and changes nothing.
pub proof fn law_step_back(state: HistoryState, line: Option<Seq<char>>)
    requires
        state.wf(),
        state.entries.len() <= usize::MAX,
    ensures
        state.entries.len() == 0 ==> state.stepped_back(line) == state && state.older() is None,
        state.entries.len() > 0 && state.cursor == NavigationCursor::AtEnd ==> {
            &&& state.stepped_back(line) == (HistoryState {
                cursor: NavigationCursor::InHistory { idx: (state.entries.len() - 1) as usize },
                draft: line,
                ..state
            })
            &&& state.older() == Some(state.entries.last())
        },
        state.cursor == (NavigationCursor::InHistory { idx: 0 }) ==> state.stepped_back(line)
            == state && state.older() is None,
        state.cursor matches NavigationCursor::InHistory { idx } ==> (0 < idx
            && state.entries.len() > 0 ==> {
            &&& state.stepped_back(line) == (HistoryState {
                cursor: NavigationCursor::InHistory { idx: (idx - 1) as usize },
                ..state
            })
            &&& idx <= state.entries.len() ==> state.older() == Some(state.entries[idx - 1])
            &&& idx > state.entries.len() ==> state.older() is None
        }),
{
}

/// A step forward from a command shows the one behind it; behind the newest one it
/// ends navigation and shows nothing; on the line being typed it changes nothing.
/// The draft is kept.
pub proof fn law_step_forward(state: HistoryState)
    requires
        state.wf(),
        state.entries.len() <= usize::MAX,
    ensures
        state.cursor == NavigationCursor::AtEnd ==> state.stepped_forward() == state
            && state.newer() is None,
        state.cursor matches NavigationCursor::InHistory { idx } ==> {
            &&& idx + 1 < state.entries.len() ==> {
                &&& state.stepped_forward() == (HistoryState {
                    cursor: NavigationCursor::InHistory { idx: (idx + 1) as usize },
                    ..state
                })
                &&& state.newer() == Some(state.entries[idx + 1])
            }
            &&& idx + 1 >= state.entries.len() ==> {
                &&& state.stepped_forward() == (HistoryState {
                    cursor: NavigationCursor::AtEnd,
                    ..state
                })
                &&& state.newer() is None
            }
        },
{
}

/// Removing a command moves the newer ones down by one and changes nothing else.
pub proof fn law_remove(state: HistoryState, idx: int)
    requires
        0 <= idx < state.entries.len(),
    ensures
        state.without(idx) == (HistoryState {
            entries: state.entries.take(idx) + state.entries.skip(idx + 1),
            ..state
        }),
{
    assert(state.without(idx).entries =~= state.entries.take(idx) + state.entries.skip(idx + 1));
}

/// A search towards older commands looks at those before the one that is shown, or
/// at all of them from the line being typed; the commands that there are can be
/// looked up, and no others; ending navigation forgets the draft and keeps the
/// rest.
pub proof fn law_positions(state: HistoryState, idx: usize, at: int)
    ensures
        state.cursor == NavigationCursor::AtEnd ==> state.back_bound() == state.entries.len(),
        state.cursor == (NavigationCursor::InHistory { idx }) ==> state.back_bound() == idx,
        0 <= at < state.entries.len() ==> state.command_at(at) == Some(state.entries[at]),
        at < 0 || at >= state.entries.len() ==> state.command_at(at) is None,
        state.reset() == (HistoryState { cursor: NavigationCursor::AtEnd, draft: None, ..state }),
{
}

/// A new history is empty, skips repetitions, and is not being walked through.
pub proof fn law_fresh(max_entries: nat, file_path: Option<std::path::PathBuf>)
    ensures
        HistoryState::fresh(max_entries, file_path) == (HistoryState {
            entries: Seq::empty(),
            max_entries,
            cursor: NavigationCursor::AtEnd,
            draft: None,
            dedup: true,
            file_path,
            file_max: 5_000,
        }),
{
}

} // verus!
