//! Store-aware readers that synthesize inline content views from per-block
//! format runs, images and footnote references.
use vstd::prelude::*;

use crate::database::block_offset_index::stretch_of;
use crate::database::rope_store::{RopeStore, StoreModel};
use crate::database::rows::{copy_images, copy_notes, copy_runs, images_in, notes_in, runs_in};
use crate::entities::{Block, EntityId};
use crate::format_runs::FormatRun;
use crate::inline_pieces::{
    addressable_inline_pieces, addressed, all_anchors, block_anchors, by_offset,
    inline_segments_view, piece_segment, pieces_chars, sliceable, woven, AddressableInlinePiece,
    AnchorModel, FootnoteRefAnchor, ImageAnchor, InlineSegment, PieceModel,
};
use crate::text::byte_len;

verus! {

/// The anchors of a block, in byte order.
pub open spec fn block_anchors_in(store: StoreModel, block_id: EntityId) -> Seq<AnchorModel> {
    by_offset(
        all_anchors(
            images_in(store.block_images, block_id),
            notes_in(store.block_footnote_refs, block_id),
        ),
    )
}

/// The pieces of a block with this text.
pub open spec fn block_pieces(store: StoreModel, block_id: EntityId, text: Seq<char>) -> Seq<
    PieceModel,
> {
    woven(text, runs_in(store.format_runs, block_id), block_anchors_in(store, block_id))
}

/// Where a block begins in the document's addressable characters: where the text
/// holds it, or else where the block says.
pub open spec fn position_of(store: StoreModel, block: Block) -> int {
    match stretch_of(store.block_offsets, block.id) {
        Some(k) => store.block_offsets[k].start as int,
        None => block.document_position as int,
    }
}

/// Fetch the format runs for a block. Returns an empty Vec if the block
/// has no runs (treated the same as a missing entry).
pub fn get_format_runs(store: &RopeStore, block_id: EntityId) -> (runs: Vec<FormatRun>)
    ensures
        runs.deep_view() == runs_in(store.deep_view().format_runs, block_id),
{
    copy_runs(&store.format_runs, block_id)
}

/// Fetch the footnote references anchored in a block.
pub fn get_block_footnote_refs(store: &RopeStore, block_id: EntityId) -> (notes: Vec<
    FootnoteRefAnchor,
>)
    ensures
        notes.deep_view() == notes_in(store.deep_view().block_footnote_refs, block_id),
{
    copy_notes(&store.block_footnote_refs, block_id)
}

/// Fetch the image anchors for a block.
pub fn get_block_images(store: &RopeStore, block_id: EntityId) -> (images: Vec<ImageAnchor>)
    ensures
        images.deep_view() == images_in(store.deep_view().block_images, block_id),
{
    copy_images(&store.block_images, block_id)
}

/// Synthesize the `Vec<InlineSegment>` view for a block from its
/// format runs, images and footnote references. Callers pass the block's text.
/// Returns segments in document order.
pub fn inline_segments_for_block(
    store: &RopeStore,
    block_id: EntityId,
    block_plain_text: &str,
) -> (segments: Vec<InlineSegment>)
    requires
        byte_len(block_plain_text@) <= u32::MAX,
        sliceable(
            block_plain_text@,
            block_pieces(store.deep_view(), block_id, block_plain_text@),
        ),
    ensures
        segments.deep_view() == block_pieces(
            store.deep_view(),
            block_id,
            block_plain_text@,
        ).map_values(|piece: PieceModel| piece_segment(block_plain_text@, piece)),
{
    let runs = get_format_runs(store, block_id);
    let images = get_block_images(store, block_id);
    let notes = get_block_footnote_refs(store, block_id);
    let runs = runs.as_slice();
    let images = images.as_slice();
    let notes = notes.as_slice();
    proof {
        assert(runs.deep_view() =~= runs_in(store.deep_view().format_runs, block_id));
        assert(images.deep_view() =~= images_in(store.deep_view().block_images, block_id));
        assert(notes.deep_view() =~= notes_in(store.deep_view().block_footnote_refs, block_id));
    }
    inline_segments_view(block_plain_text, runs, images, notes)
}

/// Where a block begins in the document's addressable characters.
pub fn block_document_position(block: &Block, store: &RopeStore) -> (position: i64)
    requires
        position_of(store.deep_view(), *block) <= i64::MAX,
    ensures
        position == position_of(store.deep_view(), *block),
{
    match store.block_offsets.find(block.id) {
        Some(k) => store.block_offsets.entries[k].start as i64,
        None => block.document_position,
    }
}

/// The block's inline pieces (text runs, images, footnote references), addressed in the
/// document's own **addressable character space**.
///
/// This is the accessor a writer splitting a comment's character range across runs, images
/// and footnote references should reach for: one definition of the weave, shared the same
/// way [`inline_segments_for_block`] shares it for the byte-space view.
pub fn addressable_inline_pieces_for_block(
    store: &RopeStore,
    block: &Block,
    block_plain_text: &str,
) -> (pieces: Vec<AddressableInlinePiece>)
    requires
        byte_len(block_plain_text@) <= u32::MAX,
        sliceable(
            block_plain_text@,
            block_pieces(store.deep_view(), block.id, block_plain_text@),
        ),
        0 <= position_of(store.deep_view(), *block),
        position_of(store.deep_view(), *block) + pieces_chars(
            block_plain_text@,
            block_pieces(store.deep_view(), block.id, block_plain_text@),
        ) <= u32::MAX,
    ensures
        pieces.deep_view() == addressed(
            block_plain_text@,
            block_pieces(store.deep_view(), block.id, block_plain_text@),
            position_of(store.deep_view(), *block),
        ),
{
    let runs = get_format_runs(store, block.id);
    let images = get_block_images(store, block.id);
    let notes = get_block_footnote_refs(store, block.id);
    let runs = runs.as_slice();
    let images = images.as_slice();
    let notes = notes.as_slice();
    proof {
        assert(runs.deep_view() =~= runs_in(store.deep_view().format_runs, block.id));
        assert(images.deep_view() =~= images_in(store.deep_view().block_images, block.id));
        assert(notes.deep_view() =~= notes_in(store.deep_view().block_footnote_refs, block.id));
        crate::inline_pieces::pieces_take_no_less_than_nothing(
            block_plain_text@,
            block_pieces(store.deep_view(), block.id, block_plain_text@),
        );
    }
    let anchors = block_anchors(images, notes);
    let anchors = anchors.as_slice();
    assert(anchors.deep_view() =~= block_anchors_in(store.deep_view(), block.id));
    let base: u32 = block_document_position(block, store) as u32;
    addressable_inline_pieces(block_plain_text, runs, anchors, base)
}

} // verus!
