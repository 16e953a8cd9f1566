//! Verified core of an interactive line reader: a grapheme-aware line buffer
//! with undo, a command history, and structured terminal prompts.

pub mod readline;
