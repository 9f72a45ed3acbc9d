//! A rich-text document model: formatted character runs, the blocks and frames
//! that hold them, and the readers that turn Markdown, HTML and Djot into them.
use vstd::prelude::*;

pub mod change_laws;
pub mod chars;
pub mod database;
pub mod document_editing;
pub mod entities;
pub mod error_laws;
pub mod format_runs;
pub mod format_runs_query;
pub mod inline_pieces;
pub mod models;
pub mod order;
pub mod parser_tools;
pub mod piece_laws;
pub mod run_laws;
pub mod run_messages;
pub mod text;
pub mod text_laws;
