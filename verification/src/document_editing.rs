//! Edits of a document, each with its undo and redo.
use vstd::prelude::*;

pub mod block_order;
pub mod edit_error;
pub mod edit_laws;
pub mod flow_laws;
pub mod frames;
pub mod image_laws;
pub mod insert_image_uc;
pub mod outcome_laws;
pub mod placement_laws;
pub mod refusal_laws;
pub mod soundness;
pub mod unwrap_block_from_frame_uc;
pub mod unwrap_frame_uc;
pub mod walk_laws;
pub mod wrap_blocks_in_frame_uc;
