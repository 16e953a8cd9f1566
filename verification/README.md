# oxidread

The verified core of an interactive line reader, written in Rust and proved with
Verus.

- `src/readline/line_buffer.rs`: the line being edited. Positions count grapheme
  clusters. `undo.rs` holds its undo stack and `cluster.rs` the clusters of a text.
- `src/readline/history.rs`: the command history, with navigation, search and the
  text format of the history file.
- `src/readline/prompt.rs`: structured prompts. `style.rs` holds colours and text
  attributes, `ansi.rs` tells visible characters from control sequences.
- `src/readline/error.rs`: the error type.
- `src/readline/text.rs`, `width.rs`: characters, lines, numerals; display width.
- `line_laws.rs`, `history_laws.rs`, `prompt_laws.rs`: what holds of several
  operations together.

Each type has a mathematical view (`LineState`, `HistoryState`, a sequence of
`Segment`s), and the contracts of its methods are stated over that view.

Segmentation into grapheme clusters comes from `unicode-segmentation` and the
display width from `unicode-width`. What is believed of them stands in
`cluster.rs` and `width.rs`.

`app/` holds what is not verified: reading and writing the history file, and
`Display` and `std::error::Error` for the library's types.
