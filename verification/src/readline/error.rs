//! The error type of the line-reading engine.

use crate::readline::text;
use vstd::prelude::*;
use vstd::string::*;

verus! {

/// `std::io::Error`, carried by the errors that stem from input and output.
#[verifier::external_type_specification]
#[verifier::external_body]
pub struct ExIoError(std::io::Error);

/// The master error type for all line-reading operations.
///
/// Variants are grouped by subsystem, so callers can match coarsely or finely.
#[derive(Debug)]
pub enum OxidreadError {
    /// A terminal I/O operation failed (reading a key, writing output).
    Io(std::io::Error),
    /// The terminal could not be put into raw mode or restored.
    TerminalSetup { reason: String },
    /// The terminal size could not be determined.
    TerminalSize,
    /// A cursor position was out of bounds for the current line.
    CursorOutOfBounds { pos: usize, len: usize },
    /// An attempt was made to move past the start or end of the line. The
    /// caller decides what to do about it (ring the bell, ignore it).
    CursorAtBoundary { side: BoundarySide },
    /// A byte slice could not be decoded as valid UTF-8.
    InvalidUtf8 { offset: usize },
    /// The requested grapheme index does not exist in the current line.
    GraphemeOutOfRange { index: usize, count: usize },
    /// Undo was requested but the undo stack is empty.
    UndoStackEmpty,
    /// Redo was requested but the redo stack is empty.
    RedoStackEmpty,
    /// An undo group was ended without a matching begin.
    UndoGroupMismatch,
    /// The history index requested is out of range.
    HistoryOutOfRange { index: usize, len: usize },
    /// The history file could not be read or written.
    HistoryFile { path: String, source: std::io::Error },
    /// A completer returned an error.
    CompletionError { reason: String },
    /// Reading was interrupted by Ctrl-C: a soft interrupt, not a failure.
    Interrupted,
    /// The input reached its end (Ctrl-D on an empty line).
    Eof,
    /// A key sequence could not be parsed or bound.
    InvalidKeySequence { seq: String },
    /// A command name was not found in the function map.
    UnknownCommand { name: String },
    /// An internal assertion failed: a bug in the library itself.
    Internal { message: String },
}

/// Which side of the line a cursor boundary was hit.
#[derive(Debug, Clone, Copy, PartialEq, Eq, Structural)]
pub enum BoundarySide {
    /// Beginning of line (position 0).
    Start,
    /// End of line (position == line length).
    End,
}

/// The result of a fallible operation of the library.
pub type Result<T> = std::result::Result<T, OxidreadError>;

/// An I/O error counts as one of the terminal.
impl From<std::io::Error> for OxidreadError {
    fn from(e: std::io::Error) -> (r: Self) {
        OxidreadError::Io(e)
    }
}

impl vstd::std_specs::convert::FromSpecImpl<std::io::Error> for OxidreadError {
    open spec fn obeys_from_spec() -> bool {
        true
    }

    open spec fn from_spec(e: std::io::Error) -> Self {
        OxidreadError::Io(e)
    }
}

impl BoundarySide {
    /// The word for this side.
    pub open spec fn word(self) -> Seq<char> {
        match self {
            BoundarySide::Start => "start"@,
            BoundarySide::End => "end"@,
        }
    }

    /// The word for this side: `start` or `end`.
    pub fn to_string(&self) -> (r: String)
        ensures
            r@ == self.word(),
    {
        match self {
            BoundarySide::Start => "start".to_string(),
            BoundarySide::End => "end".to_string(),
        }
    }
}

impl OxidreadError {
    /// `true` when `m` is the message of this error. Where the error was caused
    /// by another one, the message ends in what that one displays.
    pub open spec fn has_message(self, m: Seq<char>) -> bool {
        match self {
            OxidreadError::Io(e) => exists|cause: String| #[trigger]
                to_string_from_display_ensures::<std::io::Error>(&e, cause) && m
                    == "terminal I/O error: "@ + cause@,
            OxidreadError::TerminalSetup { reason } => m == "failed to configure terminal: "@
                + reason@,
            OxidreadError::TerminalSize => m == "could not query terminal dimensions"@,
            OxidreadError::CursorOutOfBounds { pos, len } => m == "cursor position "@
                + text::decimal(pos as nat) + " is out of bounds (line length: "@ + text::decimal(
                len as nat,
            ) + ")"@,
            OxidreadError::CursorAtBoundary { side } => m == "cursor movement blocked at "@
                + side.word() + " of line"@,
            OxidreadError::InvalidUtf8 { offset } => m
                == "invalid UTF-8 in line buffer at byte offset "@ + text::decimal(offset as nat),
            OxidreadError::GraphemeOutOfRange { index, count } => m == "grapheme index "@
                + text::decimal(index as nat) + " out of range (buffer has "@ + text::decimal(
                count as nat,
            ) + " graphemes)"@,
            OxidreadError::UndoStackEmpty => m == "nothing to undo"@,
            OxidreadError::RedoStackEmpty => m == "nothing to redo"@,
            OxidreadError::UndoGroupMismatch => m
                == "undo group end called without a matching begin"@,
            OxidreadError::HistoryOutOfRange { index, len } => m == "history index "@
                + text::decimal(index as nat) + " out of range (history has "@ + text::decimal(
                len as nat,
            ) + " entries)"@,
            OxidreadError::HistoryFile { path, source } => exists|cause: String| #[trigger]
                to_string_from_display_ensures::<std::io::Error>(&source, cause) && m
                    == "history file error at path `"@ + path@ + "`: "@ + cause@,
            OxidreadError::CompletionError { reason } => m == "completion failed: "@ + reason@,
            OxidreadError::Interrupted => m == "readline interrupted (Ctrl-C)"@,
            OxidreadError::Eof => m == "end of input (EOF)"@,
            OxidreadError::InvalidKeySequence { seq } => m == "invalid key sequence: `"@ + seq@
                + "`"@,
            OxidreadError::UnknownCommand { name } => m == "unknown command: `"@ + name@ + "`"@,
            OxidreadError::Internal { message } => m == "internal error: "@ + message@
                + " (please report this bug)"@,
        }
    }

    /// The message of this error, for display to a user.
    pub fn to_string(&self) -> (r: String)
        ensures
            self.has_message(r@),
    {
        let mut out = String::new();
        match self {
            OxidreadError::Io(e) => {
                let cause: String = e.to_string();
                out.append("terminal I/O error: ");
                out.append(cause.as_str());
            },
            OxidreadError::TerminalSetup { reason } => {
                out.append("failed to configure terminal: ");
                out.append(reason.as_str());
            },
            OxidreadError::TerminalSize => {
                out.append("could not query terminal dimensions");
            },
            OxidreadError::CursorOutOfBounds { pos, len } => {
                out.append("cursor position ");
                text::push_decimal(&mut out, *pos as u64);
                out.append(" is out of bounds (line length: ");
                text::push_decimal(&mut out, *len as u64);
                out.append(")");
            },
            OxidreadError::CursorAtBoundary { side } => {
                out.append("cursor movement blocked at ");
                out.append(side.to_string().as_str());
                out.append(" of line");
            },
            OxidreadError::InvalidUtf8 { offset } => {
                out.append("invalid UTF-8 in line buffer at byte offset ");
                text::push_decimal(&mut out, *offset as u64);
            },
            OxidreadError::GraphemeOutOfRange { index, count } => {
                out.append("grapheme index ");
                text::push_decimal(&mut out, *index as u64);
                out.append(" out of range (buffer has ");
                text::push_decimal(&mut out, *count as u64);
                out.append(" graphemes)");
            },
            OxidreadError::UndoStackEmpty => {
                out.append("nothing to undo");
            },
            OxidreadError::RedoStackEmpty => {
                out.append("nothing to redo");
            },
            OxidreadError::UndoGroupMismatch => {
                out.append("undo group end called without a matching begin");
            },
            OxidreadError::HistoryOutOfRange { index, len } => {
                out.append("history index ");
                text::push_decimal(&mut out, *index as u64);
                out.append(" out of range (history has ");
                text::push_decimal(&mut out, *len as u64);
                out.append(" entries)");
            },
            OxidreadError::HistoryFile { path, source } => {
                let cause: String = source.to_string();
                out.append("history file error at path `");
                out.append(path.as_str());
                out.append("`: ");
                out.append(cause.as_str());
            },
            OxidreadError::CompletionError { reason } => {
                out.append("completion failed: ");
                out.append(reason.as_str());
            },
            OxidreadError::Interrupted => {
                out.append("readline interrupted (Ctrl-C)");
            },
            OxidreadError::Eof => {
                out.append("end of input (EOF)");
            },
            OxidreadError::InvalidKeySequence { seq } => {
                out.append("invalid key sequence: `");
                out.append(seq.as_str());
                out.append("`");
            },
            OxidreadError::UnknownCommand { name } => {
                out.append("unknown command: `");
                out.append(name.as_str());
                out.append("`");
            },
            OxidreadError::Internal { message } => {
                out.append("internal error: ");
                out.append(message.as_str());
                out.append(" (please report this bug)");
            },
        }
        out
    }

    /// A `TerminalSetup` error with a displayable reason.
    pub fn terminal_setup<D: std::fmt::Display>(reason: D) -> (r: Self)
        ensures
            r matches OxidreadError::TerminalSetup { reason: shown }
                && to_string_from_display_ensures::<D>(&reason, shown),
    {
        OxidreadError::TerminalSetup { reason: reason.to_string() }
    }

    /// An `Internal` error with a displayable message. For broken invariants only.
    pub fn internal<D: std::fmt::Display>(message: D) -> (r: Self)
        ensures
            r matches OxidreadError::Internal { message: shown }
                && to_string_from_display_ensures::<D>(&message, shown),
    {
        OxidreadError::Internal { message: message.to_string() }
    }

    /// A `CompletionError` with a displayable reason.
    pub fn completion<D: std::fmt::Display>(reason: D) -> (r: Self)
        ensures
            r matches OxidreadError::CompletionError { reason: shown }
                && to_string_from_display_ensures::<D>(&reason, shown),
    {
        OxidreadError::CompletionError { reason: reason.to_string() }
    }

    /// `true` if this error is a soft interrupt by the user (Ctrl-C or end of
    /// input) rather than a failure.
    pub fn is_user_interrupt(&self) -> (r: bool)
        ensures
            r == (self is Interrupted || self is Eof),
    {
        match self {
            OxidreadError::Interrupted => true,
            OxidreadError::Eof => true,
            _ => false,
        }
    }
}

} // verus!
