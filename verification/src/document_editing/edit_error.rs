//! Why an edit is refused.
use vstd::prelude::*;

use crate::chars::{decimal_text, digits_of, signed_digits, signed_text};
use crate::entities::EntityId;

verus! {

/// Why an edit is refused.
#[derive(Clone, Copy, Debug, PartialEq, Eq, Structural)]
pub enum EditError {
    RootNotFound,
    RootHasNoDocument,
    DocumentNotFound,
    DocumentHasNoFrames,
    FrameNotFound,
    StartBlockNotFound,
    EndBlockNotFound,
    DifferentFrames,
    OwningFrameNotFound,
    StartBlockNotInFrame,
    EndBlockNotInFrame,
    EndBeforeStart,
    StartBlockDisappeared,
    NamedFrameNotFound(EntityId),
    TopLevelFrame,
    TableAnchorFrame,
    NamedParentNotFound(EntityId),
    EntryNotInParent,
    BlockNotFound,
    BlockInRootFrame,
    ParentFrameNotFound,
    BlockInTableFrame,
    BlockNotInFrame,
    SourceNotInParent,
    SelectionNotSupported,
    BadDimensions(i64, i64),
    BadQuality(i64),
    NoBlocks,
    NothingToUndo,
    NothingToRedo,
}

/// The words for a reason that holds no number.
pub open spec fn plain_reason(error: EditError) -> Seq<char> {
    match error {
        EditError::RootNotFound => "Root entity not found"@,
        EditError::RootHasNoDocument => "Root has no document"@,
        EditError::DocumentNotFound => "Document not found"@,
        EditError::DocumentHasNoFrames => "Document has no frames"@,
        EditError::FrameNotFound => "Frame not found"@,
        EditError::StartBlockNotFound => "start_block_id not found in any frame"@,
        EditError::EndBlockNotFound => "end_block_id not found in any frame"@,
        EditError::DifferentFrames => {
            "wrap_blocks_in_frame: start_block_id and end_block_id must live in the same frame"@
        },
        EditError::OwningFrameNotFound => "Owning frame not found"@,
        EditError::StartBlockNotInFrame => "start_block_id not in owning frame's child_order"@,
        EditError::EndBlockNotInFrame => "end_block_id not in owning frame's child_order"@,
        EditError::EndBeforeStart => {
            "wrap_blocks_in_frame: end_block must not appear before start_block in document order"@
        },
        EditError::StartBlockDisappeared => "start block disappeared mid-op"@,
        EditError::TopLevelFrame => "Cannot unwrap a top-level frame (no parent)"@,
        EditError::TableAnchorFrame => "Cannot unwrap a table-anchor frame"@,
        EditError::EntryNotInParent => "Sub-frame entry not present in parent's child_order"@,
        EditError::BlockNotFound => "block_id not found in any frame's child_order"@,
        EditError::BlockInRootFrame => "Cannot unwrap a block from the root frame"@,
        EditError::ParentFrameNotFound => "Parent frame not found"@,
        EditError::BlockInTableFrame => "Cannot unwrap a block from a table-anchor frame"@,
        EditError::BlockNotInFrame => "block_id not in owning frame's child_order"@,
        EditError::SourceNotInParent => "Source frame entry not present in parent's child_order"@,
        EditError::SelectionNotSupported => {
            "Selection replacement is not supported for image insertion"@
        },
        EditError::NoBlocks => "Document has no blocks"@,
        EditError::NothingToUndo => "No snapshot available for undo"@,
        EditError::NothingToRedo => "No DTO available for redo"@,
        _ => ""@,
    }
}

/// The words for a reason.
pub open spec fn reason(error: EditError) -> Seq<char> {
    match error {
        EditError::NamedFrameNotFound(id) => "Frame "@ + digits_of(id as nat) + " not found"@,
        EditError::NamedParentNotFound(id) => "Parent frame "@ + digits_of(id as nat)
            + " not found"@,
        EditError::BadDimensions(width, height) => "Image dimensions must be positive (got "@
            + signed_digits(width as int) + "x"@ + signed_digits(height as int) + ")"@,
        EditError::BadQuality(quality) => "Image quality must be within 1..=100 (got "@
            + signed_digits(quality as int) + ")"@,
        _ => plain_reason(error),
    }
}

impl EditError {
    /// The words for a reason that holds no number.
    fn words(&self) -> (words: &'static str)
        ensures
            words@ == plain_reason(*self),
    {
        match self {
            EditError::RootNotFound => "Root entity not found",
            EditError::RootHasNoDocument => "Root has no document",
            EditError::DocumentNotFound => "Document not found",
            EditError::DocumentHasNoFrames => "Document has no frames",
            EditError::FrameNotFound => "Frame not found",
            EditError::StartBlockNotFound => "start_block_id not found in any frame",
            EditError::EndBlockNotFound => "end_block_id not found in any frame",
            EditError::DifferentFrames => {
                "wrap_blocks_in_frame: start_block_id and end_block_id must live in the same frame"
            },
            EditError::OwningFrameNotFound => "Owning frame not found",
            EditError::StartBlockNotInFrame => "start_block_id not in owning frame's child_order",
            EditError::EndBlockNotInFrame => "end_block_id not in owning frame's child_order",
            EditError::EndBeforeStart => {
                "wrap_blocks_in_frame: end_block must not appear before start_block in document order"
            },
            EditError::StartBlockDisappeared => "start block disappeared mid-op",
            EditError::TopLevelFrame => "Cannot unwrap a top-level frame (no parent)",
            EditError::TableAnchorFrame => "Cannot unwrap a table-anchor frame",
            EditError::EntryNotInParent => "Sub-frame entry not present in parent's child_order",
            EditError::BlockNotFound => "block_id not found in any frame's child_order",
            EditError::BlockInRootFrame => "Cannot unwrap a block from the root frame",
            EditError::ParentFrameNotFound => "Parent frame not found",
            EditError::BlockInTableFrame => "Cannot unwrap a block from a table-anchor frame",
            EditError::BlockNotInFrame => "block_id not in owning frame's child_order",
            EditError::SourceNotInParent => {
                "Source frame entry not present in parent's child_order"
            },
            EditError::SelectionNotSupported => {
                "Selection replacement is not supported for image insertion"
            },
            EditError::NoBlocks => "Document has no blocks",
            EditError::NothingToUndo => "No snapshot available for undo",
            EditError::NothingToRedo => "No DTO available for redo",
            _ => "",
        }
    }

    /// The reason in words.
    pub fn message(&self) -> (message: String)
        ensures
            message@ == reason(*self),
    {
        match self {
            EditError::NamedFrameNotFound(id) => {
                let mut message = "Frame ".to_string();
                message.push_str(decimal_text(*id).as_str());
                message.push_str(" not found");
                message
            },
            EditError::NamedParentNotFound(id) => {
                let mut message = "Parent frame ".to_string();
                message.push_str(decimal_text(*id).as_str());
                message.push_str(" not found");
                message
            },
            EditError::BadDimensions(width, height) => {
                let mut message = "Image dimensions must be positive (got ".to_string();
                message.push_str(signed_text(*width).as_str());
                message.push_str("x");
                message.push_str(signed_text(*height).as_str());
                message.push_str(")");
                message
            },
            EditError::BadQuality(quality) => {
                let mut message = "Image quality must be within 1..=100 (got ".to_string();
                message.push_str(signed_text(*quality).as_str());
                message.push_str(")");
                message
            },
            _ => self.words().to_string(),
        }
    }
}

} // verus!
