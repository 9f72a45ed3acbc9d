//! Where an inserted image goes, and what it moves, stated over the request and the store
//! before it.
use vstd::prelude::*;

use crate::database::block_offset_index::{stretch_from, stretch_of};
use crate::database::rope_store::{block_text, text_is_indexed, StoreModel};
use crate::database::rows::{block_in, document_in, images_in, notes_in, root_in, runs_in, RowModel};
use crate::document_editing::block_order::{
    blocks_found, blocks_of_frame, ranks_before, sorted, sorting_orders_the_items, Ranked,
};
use crate::document_editing::edit_error::EditError;
use crate::document_editing::frames::{first_frame, located_document, owner_of};
use crate::document_editing::insert_image_uc::{
    block_at, first_past, fits, image_inserted, insert_answer, insert_byte, insert_plan,
    new_anchor, pushed_on, with_anchor, InsertImageModel, InsertPlan,
};
use crate::document_editing::unwrap_block_from_frame_uc::{
    unwrap_block_plan, UnwrapBlockFromFrameDto, UnwrapBlockPlan,
};
use crate::document_editing::unwrap_frame_uc::{unwrap_frame_plan, UnwrapFrameDto, UnwrapFramePlan};
use crate::document_editing::wrap_blocks_in_frame_uc::{wrap_plan, WrapBlocksInFrameDto, WrapPlan};
use crate::entities::{Block, EntityId, ROOT_ENTITY_ID};
use crate::format_runs::{inserted, plain_format};
use crate::inline_pieces::{inserted_images, ImageModel, NoteModel};
use crate::text::byte_len;

verus! {

/// Where a block ends: behind the last character of its text.
pub open spec fn end_of(store: StoreModel, block: Block) -> int {
    block.document_position + block_text(store, block.id).len()
}

proof fn block_at_is(store: StoreModel, blocks: Seq<Block>, position: int, i: int)
    requires
        0 <= i < blocks.len(),
    ensures
        ({
            let at = block_at(store, blocks, position, i);
            &&& i <= at < blocks.len()
            &&& forall|j: int|
                i <= j < at ==> position > end_of(store, #[trigger] blocks[j])
            &&& at + 1 < blocks.len() ==> position <= end_of(store, blocks[at])
        }),
    decreases blocks.len() - i,
{
    if i + 1 < blocks.len() && position > end_of(store, blocks[i]) {
        block_at_is(store, blocks, position, i + 1);
    }
}

/// An image goes into the first block that its position lies in or at the end of, or else
/// into the last one. Where the position lies in that block, the image stands just there;
/// one before the block stands at its start, one behind it at its end. The blocks are
/// those of the flow, in the order of their positions.
pub proof fn image_goes_where_it_is_asked(
    store: StoreModel,
    dto: InsertImageModel,
    plan: InsertPlan,
)
    requires
        insert_plan(store, dto) == Ok::<InsertPlan, EditError>(plan),
    ensures
        dto.position == dto.anchor,
        dto.width > 0,
        dto.height > 0,
        0 <= dto.quality <= 100,
        0 <= plan.at < plan.blocks.len(),
        forall|j: int|
            0 <= j < plan.at ==> dto.position > end_of(store, #[trigger] plan.blocks[j]),
        plan.at + 1 < plan.blocks.len() ==> dto.position <= end_of(store, plan.blocks[plan.at]),
        ({
            let block = plan.blocks[plan.at];
            let len = block_text(store, block.id).len();
            &&& 0 <= plan.offset <= len
            &&& block.document_position <= dto.position <= end_of(store, block)
                ==> block.document_position + plan.offset == dto.position
            &&& dto.position < block.document_position ==> plan.offset == 0
            &&& dto.position > end_of(store, block) ==> plan.offset == len
        }),
        forall|i: int, j: int|
            0 <= i < j < plan.blocks.len() ==> (#[trigger] plan.blocks[i]).document_position <= (
            #[trigger] plan.blocks[j]).document_position,
        document_in(store.documents, plan.doc_id) is Some,
        ({
            let document = document_in(store.documents, plan.doc_id)->0;
            let ids = blocks_of_frame(store, document.frames[0]);
            &&& document.frames.len() > 0
            &&& ids is Ok
            &&& plan.blocks.to_multiset() == blocks_found(store.blocks, ids->Ok_0).to_multiset()
        }),
{
    let root = first_frame(store, plan.doc_id)->Ok_0;
    let ids = blocks_of_frame(store, root)->Ok_0;
    let found = blocks_found(store.blocks, ids);
    sorting_orders_the_items(found);
    assert(plan.blocks == sorted(found));
    block_at_is(store, plan.blocks, dto.position as int, 0);
    assert forall|i: int, j: int| 0 <= i < j < plan.blocks.len() implies (
    #[trigger] plan.blocks[i]).document_position <= (
    #[trigger] plan.blocks[j]).document_position by {
        assert(!ranks_before(sorted(found)[j].rank(), sorted(found)[i].rank()));
    }
}

/// A request is refused for what is wrong with it before the store is looked at: a
/// selection, a size that is not positive, a quality out of range.
pub proof fn bad_requests_are_refused(store: StoreModel, dto: InsertImageModel)
    ensures
        dto.position != dto.anchor ==> insert_plan(store, dto) == Err::<InsertPlan, EditError>(
            EditError::SelectionNotSupported,
        ),
        dto.position == dto.anchor && (dto.width <= 0 || dto.height <= 0) ==> insert_plan(
            store,
            dto,
        ) == Err::<InsertPlan, EditError>(EditError::BadDimensions(dto.width, dto.height)),
        dto.position == dto.anchor && dto.width > 0 && dto.height > 0 && (dto.quality < 0
            || dto.quality > 100) ==> insert_plan(store, dto) == Err::<InsertPlan, EditError>(
            EditError::BadQuality(dto.quality),
        ),
{
}

proof fn stretch_is_there(store: StoreModel, id: EntityId, i: int)
    requires
        0 <= i,
    ensures
        stretch_from(store.block_offsets, id, i) matches Some(k) ==> i <= k
            < store.block_offsets.len() && store.block_offsets[k].block_id == id,
    decreases store.block_offsets.len() - i,
{
    if i < store.block_offsets.len() {
        stretch_is_there(store, id, i + 1);
    }
}

/// Where the blocks stand in the text at their positions, an image that is inserted within
/// its block stands in the text before the character of its position, and the answer is
/// the position behind it.
pub proof fn text_has_the_image_at_its_position(
    store: StoreModel,
    dto: InsertImageModel,
    plan: InsertPlan,
    now: i64,
    k: int,
)
    requires
        insert_plan(store, dto) == Ok::<InsertPlan, EditError>(plan),
        fits(store, dto),
        text_is_indexed(store),
        stretch_of(store.block_offsets, plan.blocks[plan.at].id) == Some(k),
        store.block_offsets[k].start == plan.blocks[plan.at].document_position,
        plan.blocks[plan.at].document_position <= dto.position <= end_of(
            store,
            plan.blocks[plan.at],
        ),
    ensures
        image_inserted(store, dto, plan, now).text == store.text.take(dto.position as int) + seq![
            '\u{FFFC}',
        ] + store.text.skip(dto.position as int),
        insert_answer(store, dto, plan).new_position == dto.position + 1,
{
    image_goes_where_it_is_asked(store, dto, plan);
    stretch_is_there(store, plan.blocks[plan.at].id, 0);
    assert(store.block_offsets[k].start + store.block_offsets[k].len <= store.text.len());
}

proof fn first_past_is(images: Seq<ImageModel>, byte: int, i: int)
    requires
        0 <= i <= images.len(),
    ensures
        i <= first_past(images, byte, i) <= images.len(),
        forall|k: int| i <= k < first_past(images, byte, i) ==> (#[trigger] images[k]).offset <= byte,
        first_past(images, byte, i) < images.len() ==> images[first_past(images, byte, i)].offset
            > byte,
    decreases images.len() - i,
{
    if i < images.len() && images[i].offset <= byte {
        first_past_is(images, byte, i + 1);
    }
}

/// Where a byte has moved to when a sentinel of three bytes was inserted before it.
pub open spec fn moved_on(offset: int, byte: int) -> int {
    if offset >= byte {
        offset + 3
    } else {
        offset
    }
}

/// The block of an image has one image more: the one that was asked for, with its name,
/// description, size and quality, at the byte of its character, behind those that stand
/// before it. Every other image and every footnote reference of the block stands at the
/// same character as before, and is otherwise as it was.
pub proof fn image_is_anchored_in_its_block(
    store: StoreModel,
    dto: InsertImageModel,
    plan: InsertPlan,
    now: i64,
)
    requires
        insert_plan(store, dto) == Ok::<InsertPlan, EditError>(plan),
    ensures
        ({
            let after = image_inserted(store, dto, plan, now);
            let id = plan.blocks[plan.at].id;
            let byte = byte_len(block_text(store, id).take(plan.offset)) as int;
            let old = images_in(store.block_images, id);
            let new = images_in(after.block_images, id);
            let old_notes = notes_in(store.block_footnote_refs, id);
            let new_notes = notes_in(after.block_footnote_refs, id);
            &&& new.len() == old.len() + 1
            &&& exists|m: int|
                0 <= m < new.len() && {
                    &&& (#[trigger] new[m]).offset == byte
                    &&& new[m].name == dto.image_name
                    &&& new[m].alt == dto.alt
                    &&& new[m].width == dto.width
                    &&& new[m].height == dto.height
                    &&& dto.quality == 0 ==> new[m].quality == 100
                    &&& dto.quality != 0 ==> new[m].quality == dto.quality
                    &&& new[m].format == plain_format()
                    &&& forall|j: int|
                        0 <= j < m ==> (#[trigger] new[j]) == ImageModel {
                            offset: moved_on(old[j].offset, byte),
                            ..old[j]
                        } && new[j].offset <= byte
                    &&& forall|j: int|
                        m < j < new.len() ==> (#[trigger] new[j]) == ImageModel {
                            offset: moved_on(old[j - 1].offset, byte),
                            ..old[j - 1]
                        }
                }
            &&& new_notes.len() == old_notes.len()
            &&& forall|j: int|
                0 <= j < old_notes.len() ==> (#[trigger] new_notes[j]) == NoteModel {
                    offset: moved_on(old_notes[j].offset, byte),
                    ..old_notes[j]
                }
            &&& runs_in(store.format_runs, id).len() > 0 ==> runs_in(after.format_runs, id)
                == inserted(runs_in(store.format_runs, id), byte, 3)
        }),
{
    let after = image_inserted(store, dto, plan, now);
    let id = plan.blocks[plan.at].id;
    let byte = insert_byte(store, plan);
    let old = images_in(store.block_images, id);
    let shifted = inserted_images(old, byte, 3);
    let new = images_in(after.block_images, id);
    let anchor = new_anchor(dto, byte);
    first_past_is(shifted, byte, 0);
    let m = first_past(shifted, byte, 0);
    assert(new == with_anchor(old, anchor));
    assert(new == shifted.insert(m, anchor));
    assert(new[m] == anchor);
    assert forall|j: int| 0 <= j < m implies (#[trigger] new[j]) == (ImageModel {
        offset: moved_on(old[j].offset, byte),
        ..old[j]
    }) && new[j].offset <= byte by {
        assert(new[j] == shifted[j]);
    }
    assert forall|j: int| m < j < new.len() implies (#[trigger] new[j]) == (ImageModel {
        offset: moved_on(old[j - 1].offset, byte),
        ..old[j - 1]
    }) by {
        assert(new[j] == shifted[j - 1]);
    }
}

/// Whether no two blocks have the same id.
pub open spec fn ids_differ(blocks: Seq<Block>) -> bool {
    forall|i: int, j: int|
        0 <= i < j < blocks.len() ==> (#[trigger] blocks[i]).id != (#[trigger] blocks[j]).id
}

proof fn blocks_are_pushed_on(
    rows: Map<EntityId, RowModel>,
    blocks: Seq<Block>,
    from: int,
    n: int,
    now: i64,
    id: EntityId,
)
    requires
        0 <= from,
        n <= blocks.len(),
        ids_differ(blocks),
        forall|i: int|
            from <= i < n ==> (#[trigger] blocks[i]).document_position < i64::MAX,
    ensures
        forall|j: int|
            from <= j < n && (#[trigger] blocks[j]).id == id ==> block_in(
                pushed_on(rows, blocks, from, n, now),
                id,
            ) == Some(
                Block {
                    document_position: (blocks[j].document_position + 1) as i64,
                    updated_at: now,
                    ..blocks[j]
                },
            ),
        (forall|j: int| from <= j < n ==> (#[trigger] blocks[j]).id != id) ==> block_in(
            pushed_on(rows, blocks, from, n, now),
            id,
        ) == block_in(rows, id),
    decreases n - from,
{
    if n > from {
        blocks_are_pushed_on(rows, blocks, from, n - 1, now, id);
        let before = pushed_on(rows, blocks, from, n - 1, now);
        let after = pushed_on(rows, blocks, from, n, now);
        assert forall|j: int| from <= j < n && (#[trigger] blocks[j]).id == id implies block_in(
            after,
            id,
        ) == Some(
            Block {
                document_position: (blocks[j].document_position + 1) as i64,
                updated_at: now,
                ..blocks[j]
            },
        ) by {
            if j < n - 1 {
                assert(blocks[j].id != blocks[n - 1].id);
            }
        }
        if forall|j: int| from <= j < n ==> (#[trigger] blocks[j]).id != id {
            assert(blocks[n - 1].id != id);
            assert(forall|j: int| from <= j < n - 1 ==> (#[trigger] blocks[j]).id != id);
        }
    }
}

/// An image moves the blocks behind its own on by one character, and no other block; it
/// adds one to the document's characters. The block it goes to keeps its place.
pub proof fn image_moves_what_is_behind_it(
    store: StoreModel,
    dto: InsertImageModel,
    plan: InsertPlan,
    now: i64,
    j: int,
    id: EntityId,
)
    requires
        insert_plan(store, dto) == Ok::<InsertPlan, EditError>(plan),
        fits(store, dto),
        ids_differ(plan.blocks),
        0 <= j < plan.blocks.len(),
    ensures
        ({
            let after = image_inserted(store, dto, plan, now);
            let block = plan.blocks[j];
            &&& j > plan.at ==> block_in(after.blocks, block.id) == Some(
                Block {
                    document_position: (block.document_position + 1) as i64,
                    updated_at: now,
                    ..block
                },
            ) && block.document_position < i64::MAX
            &&& j == plan.at ==> block_in(after.blocks, block.id) == Some(
                Block { updated_at: now, ..block },
            )
            &&& j < plan.at ==> block_in(after.blocks, block.id) == block_in(
                store.blocks,
                block.id,
            )
            &&& (forall|k: int| 0 <= k < plan.blocks.len() ==> (#[trigger] plan.blocks[k]).id != id)
                ==> block_in(after.blocks, id) == block_in(store.blocks, id)
            &&& document_in(store.documents, plan.doc_id) matches Some(was)
                && was.character_count < i64::MAX && after.documents == store.documents.insert(
                plan.doc_id,
                RowModel::Document(
                    crate::entities::DocumentModel {
                        character_count: (was.character_count + 1) as i64,
                        updated_at: now,
                        ..was
                    },
                ),
            )
        }),
{
    image_goes_where_it_is_asked(store, dto, plan);
    let target = plan.blocks[plan.at];
    let rows = store.blocks.insert(
        target.id,
        RowModel::Block(Block { updated_at: now, ..target }),
    );
    let n = plan.blocks.len() as int;
    blocks_are_pushed_on(rows, plan.blocks, plan.at + 1, n, now, plan.blocks[j].id);
    blocks_are_pushed_on(rows, plan.blocks, plan.at + 1, n, now, id);
    if j <= plan.at {
        assert forall|k: int| plan.at + 1 <= k < n implies (#[trigger] plan.blocks[k]).id
            != plan.blocks[j].id by {
            assert(plan.blocks[j].id != plan.blocks[k].id);
        }
    }
    if j < plan.at {
        assert(plan.blocks[j].id != plan.blocks[plan.at].id);
    }
}

/// An image leaves the rest of the store as it is: the objects and formats of other
/// blocks, frames, tables, lists, resources, and the ids given out.
pub proof fn image_leaves_the_rest(
    store: StoreModel,
    dto: InsertImageModel,
    plan: InsertPlan,
    now: i64,
    id: EntityId,
)
    ensures
        ({
            let after = image_inserted(store, dto, plan, now);
            &&& id != plan.blocks[plan.at].id ==> images_in(after.block_images, id) == images_in(
                store.block_images,
                id,
            ) && notes_in(after.block_footnote_refs, id) == notes_in(store.block_footnote_refs, id)
                && runs_in(after.format_runs, id) == runs_in(store.format_runs, id)
            &&& after.roots == store.roots
            &&& after.frames == store.frames
            &&& after.lists == store.lists
            &&& after.resources == store.resources
            &&& after.tables == store.tables
            &&& after.table_cells == store.table_cells
            &&& after.footnote_markers == store.footnote_markers
            &&& after.counters == store.counters
        }),
{
}

// ─── The document ────────────────────────────────────────────────────

/// All edits are of the first document of the root, and of the flow that its first frame
/// holds.
pub proof fn edits_are_of_the_first_document(
    store: StoreModel,
    wrap: WrapBlocksInFrameDto,
    wraps: WrapPlan,
    lift: UnwrapBlockFromFrameDto,
    lifts: UnwrapBlockPlan,
    unwrap: UnwrapFrameDto,
    unwraps: UnwrapFramePlan,
    image: InsertImageModel,
    places: InsertPlan,
)
    requires
        wrap_plan(store, wrap) == Ok::<WrapPlan, EditError>(wraps),
        unwrap_block_plan(store, lift) == Ok::<UnwrapBlockPlan, EditError>(lifts),
        unwrap_frame_plan(store, unwrap) == Ok::<UnwrapFramePlan, EditError>(unwraps),
        insert_plan(store, image) == Ok::<InsertPlan, EditError>(places),
    ensures
        ({
            let root = root_in(store.roots, ROOT_ENTITY_ID)->0;
            let first = document_in(store.documents, root.documents[0])->0.frames[0];
            &&& root_in(store.roots, ROOT_ENTITY_ID) is Some
            &&& root.documents.len() > 0
            &&& wraps.doc_id == root.documents[0]
            &&& lifts.doc_id == root.documents[0]
            &&& unwraps.doc_id == root.documents[0]
            &&& places.doc_id == root.documents[0]
            &&& owner_of(store.frames, first, wrap.start_block_id) == Ok::<
                Option<EntityId>,
                EditError,
            >(Some(wraps.owner_id))
            &&& owner_of(store.frames, first, wrap.end_block_id) == Ok::<
                Option<EntityId>,
                EditError,
            >(Some(wraps.owner_id))
            &&& owner_of(store.frames, first, lift.block_id) == Ok::<Option<EntityId>, EditError>(
                Some(lifts.owner_id),
            )
        }),
{
}

/// An edit of a store without a root, or without a document, is refused for that, whatever
/// is asked.
pub proof fn edits_need_a_document(
    store: StoreModel,
    wrap: WrapBlocksInFrameDto,
    lift: UnwrapBlockFromFrameDto,
    unwrap: UnwrapFrameDto,
)
    ensures
        root_in(store.roots, ROOT_ENTITY_ID) is None ==> located_document(store) == Err::<
            EntityId,
            EditError,
        >(EditError::RootNotFound),
        root_in(store.roots, ROOT_ENTITY_ID) matches Some(root) ==> root.documents.len() == 0
            ==> located_document(store) == Err::<EntityId, EditError>(
            EditError::RootHasNoDocument,
        ),
        located_document(store) matches Err(e) ==> wrap_plan(store, wrap) == Err::<
            WrapPlan,
            EditError,
        >(e) && unwrap_block_plan(store, lift) == Err::<UnwrapBlockPlan, EditError>(e)
            && unwrap_frame_plan(store, unwrap) == Err::<UnwrapFramePlan, EditError>(e),
{
}

} // verus!
