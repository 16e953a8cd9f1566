use oxidread::readline::error::{BoundarySide, OxidreadError, Result};

#[test]
fn error_display_cursor_out_of_bounds() {
    let e = OxidreadError::CursorOutOfBounds { pos: 10, len: 5 };
    let msg = e.to_string();
    assert!(msg.contains("10"));
    assert!(msg.contains("5"));
}

#[test]
fn error_display_cursor_at_boundary_start() {
    let e = OxidreadError::CursorAtBoundary {
        side: BoundarySide::Start,
    };
    assert!(e.to_string().contains("start"));
}

#[test]
fn error_display_cursor_at_boundary_end() {
    let e = OxidreadError::CursorAtBoundary {
        side: BoundarySide::End,
    };
    assert!(e.to_string().contains("end"));
}

#[test]
fn is_user_interrupt_true_for_interrupted() {
    assert!(OxidreadError::Interrupted.is_user_interrupt());
}

#[test]
fn is_user_interrupt_true_for_eof() {
    assert!(OxidreadError::Eof.is_user_interrupt());
}

#[test]
fn is_user_interrupt_false_for_io_errors() {
    let e = OxidreadError::UndoStackEmpty;
    assert!(!e.is_user_interrupt());
}

#[test]
fn helper_constructors_produce_correct_variants() {
    let e = OxidreadError::terminal_setup("bad fd");
    assert!(matches!(e, OxidreadError::TerminalSetup { .. }));

    let e = OxidreadError::internal("invariant broken");
    assert!(matches!(e, OxidreadError::Internal { .. }));

    let e = OxidreadError::completion("no candidates");
    assert!(matches!(e, OxidreadError::CompletionError { .. }));
}

#[test]
fn history_file_error_includes_path() {
    let io_err = std::io::Error::new(std::io::ErrorKind::NotFound, "not found");
    let e = OxidreadError::HistoryFile {
        path: "/home/ali/.oxidread_history".to_string(),
        source: io_err,
    };
    assert!(e.to_string().contains(".oxidread_history"));
}

#[test]
fn result_alias_works() {
    assert_eq!(ok_fn().unwrap(), 42);
    assert!(err_fn().is_err());
}

fn ok_fn() -> Result<u32> {
    Ok(42)
}

fn err_fn() -> Result<u32> {
    Err(OxidreadError::UndoStackEmpty)
}
