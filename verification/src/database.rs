//! Where a document lives: its text, its rows, and the snapshots that undo an edit.
use vstd::prelude::*;

pub mod block_offset_index;
pub mod rope_store;
pub mod rows;
