# text_document

A rich-text document model whose behaviour is stated in contracts and proved by Verus.

- `src/format_runs.rs`, `src/inline_pieces.rs`: a block's character formatting as sorted
  byte spans, its inline images and footnote references, and the edits that keep them in
  step with the text. `src/run_laws.rs` and `src/piece_laws.rs` say what the edits mean for
  the format of each byte and for the stream of pieces.
- `src/parser_tools/`: readers of Markdown, HTML and Djot, the escaping of plain text as
  Djot, word counts, and the options of the exporters. `djot_depth.rs` sets the ceiling
  above which Djot is taken as it is, and `djot_descent.rs` bounds how far the Djot parser
  descends. `inline_laws.rs`,
  `reader_laws.rs`, `depth_laws.rs`, `escape_laws.rs` and `djot_plain.rs` hold what the
  readers promise as a whole.
- `src/database/`: the store, with its snapshots and savepoints.
- `src/document_editing/`: edits of a document, each with its undo and redo.
  `edit_laws.rs`, `flow_laws.rs` and `image_laws.rs` say what they keep and what they undo;
  `soundness.rs` tells whether a store is such that it can be edited.

Markdown, HTML and Djot are split into events by pulldown-cmark, scraper and jotdown; words
by unicode-segmentation; images are written in base64 by the crate of that name; the store's
tables are `im` maps and its text is a `ropey` rope. The calls into these crates are marked
`external_body`, and a comment above each says what is taken on trust.

`app/` is ordinary Rust around the library: values with serde's derives, errors for
`thiserror` and `anyhow`, a store behind a lock, the clock, and floating-point numbers.
