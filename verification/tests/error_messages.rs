use oxidread::readline::error::{BoundarySide, OxidreadError};

fn cause() -> std::io::Error {
    std::io::Error::new(std::io::ErrorKind::NotFound, "gone")
}

#[test]
fn every_message() {
    let cases = vec![
        (OxidreadError::Io(cause()), "terminal I/O error: gone"),
        (OxidreadError::terminal_setup("bad fd"), "failed to configure terminal: bad fd"),
        (OxidreadError::TerminalSize, "could not query terminal dimensions"),
        (
            OxidreadError::CursorOutOfBounds { pos: 10, len: 5 },
            "cursor position 10 is out of bounds (line length: 5)",
        ),
        (
            OxidreadError::CursorAtBoundary { side: BoundarySide::Start },
            "cursor movement blocked at start of line",
        ),
        (
            OxidreadError::CursorAtBoundary { side: BoundarySide::End },
            "cursor movement blocked at end of line",
        ),
        (
            OxidreadError::InvalidUtf8 { offset: 3 },
            "invalid UTF-8 in line buffer at byte offset 3",
        ),
        (
            OxidreadError::GraphemeOutOfRange { index: 7, count: 2 },
            "grapheme index 7 out of range (buffer has 2 graphemes)",
        ),
        (OxidreadError::UndoStackEmpty, "nothing to undo"),
        (OxidreadError::RedoStackEmpty, "nothing to redo"),
        (
            OxidreadError::UndoGroupMismatch,
            "undo group end called without a matching begin",
        ),
        (
            OxidreadError::HistoryOutOfRange { index: 4, len: 1 },
            "history index 4 out of range (history has 1 entries)",
        ),
        (
            OxidreadError::HistoryFile { path: "/x".to_string(), source: cause() },
            "history file error at path `/x`: gone",
        ),
        (OxidreadError::completion(42), "completion failed: 42"),
        (OxidreadError::Interrupted, "readline interrupted (Ctrl-C)"),
        (OxidreadError::Eof, "end of input (EOF)"),
        (
            OxidreadError::InvalidKeySequence { seq: "C-?".to_string() },
            "invalid key sequence: `C-?`",
        ),
        (
            OxidreadError::UnknownCommand { name: "foo".to_string() },
            "unknown command: `foo`",
        ),
        (
            OxidreadError::internal("oops"),
            "internal error: oops (please report this bug)",
        ),
    ];
    for (error, message) in cases {
        assert_eq!(error.to_string(), message);
    }
}

#[test]
fn io_errors_convert() {
    let e: OxidreadError = cause().into();
    assert!(matches!(e, OxidreadError::Io(_)));
    assert!(!e.is_user_interrupt());
}

#[test]
fn boundary_sides() {
    assert_eq!(BoundarySide::Start.to_string(), "start");
    assert_eq!(BoundarySide::End.to_string(), "end");
}
