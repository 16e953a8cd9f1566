//! The line-reading engine.

pub mod ansi;
pub mod cluster;
pub mod edit_laws;
pub mod error;
pub mod history;
pub mod history_laws;
pub mod line_buffer;
pub mod line_laws;
pub mod prompt;
pub mod prompt_laws;
pub mod style;
pub mod text;
pub mod text_laws;
pub mod undo;
pub mod width;
