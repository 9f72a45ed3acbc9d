//! When an edit is done and when it is refused, stated over the store and the request.
use vstd::prelude::*;

use crate::database::rope_store::StoreModel;
use crate::database::rows::{block_in, document_in, frame_in, root_in};
use crate::document_editing::block_order::{
    blocks_found, blocks_of_frame, sorted, sorting_orders_the_items,
};
use crate::document_editing::edit_error::EditError;
use crate::document_editing::edit_laws::children;
use crate::document_editing::frames::{entry_from, owner_of};
use crate::document_editing::insert_image_uc::{insert_plan, InsertImageModel, InsertPlan};
use crate::document_editing::unwrap_block_from_frame_uc::{
    unwrap_block_plan, UnwrapBlockFromFrameDto, UnwrapBlockPlan,
};
use crate::document_editing::unwrap_frame_uc::{unwrap_frame_plan, UnwrapFrameDto, UnwrapFramePlan};
use crate::document_editing::wrap_blocks_in_frame_uc::{wrap_plan, WrapBlocksInFrameDto, WrapPlan};
use crate::entities::{EntityId, ROOT_ENTITY_ID};

verus! {

/// Whether a store has a document with a frame for its flow, the first document of its root
/// and the first frame of that.
pub open spec fn has_flow(store: StoreModel, doc_id: EntityId, first: EntityId) -> bool {
    &&& root_in(store.roots, ROOT_ENTITY_ID) is Some
    &&& root_in(store.roots, ROOT_ENTITY_ID)->0.documents.len() > 0
    &&& root_in(store.roots, ROOT_ENTITY_ID)->0.documents[0] == doc_id
    &&& document_in(store.documents, doc_id) is Some
    &&& document_in(store.documents, doc_id)->0.frames.len() > 0
    &&& document_in(store.documents, doc_id)->0.frames[0] == first
}

/// Whether an entry stands at a position for the first time.
pub open spec fn is_first_at(entries: Seq<i64>, at: int, entry: int) -> bool {
    &&& 0 <= at < entries.len()
    &&& entries[at] == entry
    &&& forall|j: int| 0 <= j < at ==> #[trigger] entries[j] != entry
}

proof fn entry_is(entries: Seq<i64>, at: int, entry: int, i: int)
    requires
        is_first_at(entries, at, entry),
        0 <= i <= at,
    ensures
        entry_from(entries, entry, i) == Some(at),
    decreases at - i,
{
    if i < at {
        assert(entries[i] != entry);
        entry_is(entries, at, entry, i + 1);
    }
}

proof fn entry_is_missing(entries: Seq<i64>, entry: int, i: int)
    requires
        0 <= i,
        forall|j: int| 0 <= j < entries.len() ==> #[trigger] entries[j] != entry,
    ensures
        entry_from(entries, entry, i) is None,
    decreases entries.len() - i,
{
    if i < entries.len() {
        assert(entries[i] != entry);
        entry_is_missing(entries, entry, i + 1);
    }
}

/// Without a document, or a frame for its flow, every edit is refused for that.
pub proof fn edits_need_a_flow(
    store: StoreModel,
    doc_id: EntityId,
    wrap: WrapBlocksInFrameDto,
    lift: UnwrapBlockFromFrameDto,
)
    requires
        root_in(store.roots, ROOT_ENTITY_ID) is Some,
        root_in(store.roots, ROOT_ENTITY_ID)->0.documents.len() > 0,
        root_in(store.roots, ROOT_ENTITY_ID)->0.documents[0] == doc_id,
    ensures
        document_in(store.documents, doc_id) is None ==> {
            &&& wrap_plan(store, wrap) == Err::<WrapPlan, EditError>(EditError::DocumentNotFound)
            &&& unwrap_block_plan(store, lift) == Err::<UnwrapBlockPlan, EditError>(
                EditError::DocumentNotFound,
            )
        },
        document_in(store.documents, doc_id) matches Some(document) ==> document.frames.len() == 0
            ==> {
            &&& wrap_plan(store, wrap) == Err::<WrapPlan, EditError>(
                EditError::DocumentHasNoFrames,
            )
            &&& unwrap_block_plan(store, lift) == Err::<UnwrapBlockPlan, EditError>(
                EditError::DocumentHasNoFrames,
            )
        },
{
}

/// A wrap is refused where one of its blocks is in no frame, where they are in different
/// ones, and where the end comes before the start.
pub proof fn wraps_are_refused(
    store: StoreModel,
    dto: WrapBlocksInFrameDto,
    doc_id: EntityId,
    first: EntityId,
    x: EntityId,
    y: EntityId,
    i: int,
    j: int,
)
    requires
        has_flow(store, doc_id, first),
    ensures
        ({
            let a = owner_of(store.frames, first, dto.start_block_id);
            let b = owner_of(store.frames, first, dto.end_block_id);
            let plan = wrap_plan(store, dto);
            &&& a is Ok && a->Ok_0 is None ==> plan == Err::<WrapPlan, EditError>(
                EditError::StartBlockNotFound,
            )
            &&& a is Ok && a->Ok_0 is Some && b is Ok && b->Ok_0 is None ==> plan == Err::<
                WrapPlan,
                EditError,
            >(EditError::EndBlockNotFound)
            &&& a is Ok && a->Ok_0 == Some(x) && b is Ok && b->Ok_0 == Some(y) && x != y ==> plan
                == Err::<WrapPlan, EditError>(EditError::DifferentFrames)
            &&& a is Ok && a->Ok_0 == Some(x) && b is Ok && b->Ok_0 == Some(x) && frame_in(
                store.frames,
                x,
            ) is Some && is_first_at(children(store.frames, x), i, dto.start_block_id as int)
                && is_first_at(children(store.frames, x), j, dto.end_block_id as int) && j < i
                ==> plan == Err::<WrapPlan, EditError>(EditError::EndBeforeStart)
        }),
{
    if is_first_at(children(store.frames, x), i, dto.start_block_id as int) {
        entry_is(children(store.frames, x), i, dto.start_block_id as int, 0);
    }
    if is_first_at(children(store.frames, x), j, dto.end_block_id as int) {
        entry_is(children(store.frames, x), j, dto.end_block_id as int, 0);
    }
}

/// A wrap is done where both its blocks are in one frame, the end not before the start: it
/// takes the children from the one to the other. It needs the row of the first block.
pub proof fn wraps_are_done(
    store: StoreModel,
    dto: WrapBlocksInFrameDto,
    doc_id: EntityId,
    first: EntityId,
    owner: EntityId,
    i: int,
    j: int,
)
    requires
        has_flow(store, doc_id, first),
        owner_of(store.frames, first, dto.start_block_id) == Ok::<Option<EntityId>, EditError>(
            Some(owner),
        ),
        owner_of(store.frames, first, dto.end_block_id) == Ok::<Option<EntityId>, EditError>(
            Some(owner),
        ),
        frame_in(store.frames, owner) is Some,
        is_first_at(children(store.frames, owner), i, dto.start_block_id as int),
        is_first_at(children(store.frames, owner), j, dto.end_block_id as int),
        i <= j,
    ensures
        block_in(store.blocks, dto.start_block_id as EntityId) is None ==> wrap_plan(store, dto)
            == Err::<WrapPlan, EditError>(EditError::StartBlockDisappeared),
        block_in(store.blocks, dto.start_block_id as EntityId) is Some ==> {
            &&& wrap_plan(store, dto) is Ok
            &&& wrap_plan(store, dto)->Ok_0.doc_id == doc_id
            &&& wrap_plan(store, dto)->Ok_0.owner_id == owner
            &&& wrap_plan(store, dto)->Ok_0.start == i
            &&& wrap_plan(store, dto)->Ok_0.end == j
        },
{
    entry_is(children(store.frames, owner), i, dto.start_block_id as int, 0);
    entry_is(children(store.frames, owner), j, dto.end_block_id as int, 0);
}

/// An unwrap of a frame is done where the frame is there, has a parent that lists it, and
/// holds no table; it is refused for the first of these that fails.
pub proof fn unwraps_are_done_or_refused(
    store: StoreModel,
    dto: UnwrapFrameDto,
    doc_id: EntityId,
    first: EntityId,
    parent_id: EntityId,
    at: int,
)
    requires
        has_flow(store, doc_id, first),
        0 <= dto.frame_id,
    ensures
        ({
            let id = dto.frame_id as EntityId;
            let frame = frame_in(store.frames, id);
            let plan = unwrap_frame_plan(store, dto);
            &&& frame is None ==> plan == Err::<UnwrapFramePlan, EditError>(
                EditError::NamedFrameNotFound(id),
            )
            &&& frame is Some && frame->0.parent_frame is None ==> plan == Err::<
                UnwrapFramePlan,
                EditError,
            >(EditError::TopLevelFrame)
            &&& frame is Some && frame->0.parent_frame == Some(parent_id) ==> {
                let parent = frame_in(store.frames, parent_id);
                let entry = -(dto.frame_id as int);
                &&& frame->0.table is Some ==> plan == Err::<UnwrapFramePlan, EditError>(
                    EditError::TableAnchorFrame,
                )
                &&& frame->0.table is None && parent is None ==> plan == Err::<
                    UnwrapFramePlan,
                    EditError,
                >(EditError::NamedParentNotFound(parent_id))
                &&& frame->0.table is None && parent is Some && !(exists|j: int|
                    0 <= j < parent->0.child_order.len() && #[trigger] parent->0.child_order[j]
                        == entry) ==> plan == Err::<UnwrapFramePlan, EditError>(
                    EditError::EntryNotInParent,
                )
                &&& frame->0.table is None && parent is Some && is_first_at(
                    parent->0.child_order,
                    at,
                    entry,
                ) ==> {
                    &&& plan is Ok
                    &&& plan->Ok_0.doc_id == doc_id
                    &&& plan->Ok_0.frame_id == id
                    &&& plan->Ok_0.parent_id == parent_id
                    &&& plan->Ok_0.at == at
                }
            }
        }),
{
    let entry = -(dto.frame_id as int);
    if let Some(parent) = frame_in(store.frames, parent_id) {
        let entries = parent.child_order;
        if is_first_at(entries, at, entry) {
            entry_is(entries, at, entry, 0);
        }
        if !(exists|j: int| 0 <= j < entries.len() && #[trigger] entries[j] == entry) {
            entry_is_missing(entries, entry, 0);
        }
    }
}

/// A block is lifted out of a frame that has a parent which lists it, and holds no table; it
/// is refused for the first of these that fails, and where no frame has the block.
pub proof fn lifts_are_done_or_refused(
    store: StoreModel,
    dto: UnwrapBlockFromFrameDto,
    doc_id: EntityId,
    first: EntityId,
    owner_id: EntityId,
    parent_id: EntityId,
    i: int,
    at: int,
)
    requires
        has_flow(store, doc_id, first),
    ensures
        ({
            let found = owner_of(store.frames, first, dto.block_id);
            let owner = frame_in(store.frames, owner_id);
            let parent = frame_in(store.frames, parent_id);
            let plan = unwrap_block_plan(store, dto);
            &&& found is Ok && found->Ok_0 is None ==> plan == Err::<UnwrapBlockPlan, EditError>(
                EditError::BlockNotFound,
            )
            &&& found is Ok && found->Ok_0 == Some(owner_id) && owner is Some ==> {
                &&& owner->0.parent_frame is None ==> plan == Err::<UnwrapBlockPlan, EditError>(
                    EditError::BlockInRootFrame,
                )
                &&& owner->0.parent_frame == Some(parent_id) ==> {
                    &&& parent is None ==> plan == Err::<UnwrapBlockPlan, EditError>(
                        EditError::ParentFrameNotFound,
                    )
                    &&& parent is Some && owner->0.table is Some ==> plan == Err::<
                        UnwrapBlockPlan,
                        EditError,
                    >(EditError::BlockInTableFrame)
                    &&& parent is Some && owner->0.table is None && is_first_at(
                        owner->0.child_order,
                        i,
                        dto.block_id as int,
                    ) ==> {
                        &&& !(exists|j: int|
                            0 <= j < parent->0.child_order.len()
                                && #[trigger] parent->0.child_order[j] == -(owner_id as int))
                            ==> plan == Err::<UnwrapBlockPlan, EditError>(
                            EditError::SourceNotInParent,
                        )
                        &&& is_first_at(parent->0.child_order, at, -(owner_id as int)) ==> {
                            &&& plan is Ok
                            &&& plan->Ok_0.doc_id == doc_id
                            &&& plan->Ok_0.block_id == dto.block_id
                            &&& plan->Ok_0.owner_id == owner_id
                            &&& plan->Ok_0.parent_id == parent_id
                            &&& plan->Ok_0.block_at == i
                            &&& plan->Ok_0.owner_at == at
                        }
                    }
                }
            }
        }),
{
    let entry = -(owner_id as int);
    if let Some(owner) = frame_in(store.frames, owner_id) {
        if is_first_at(owner.child_order, i, dto.block_id as int) {
            entry_is(owner.child_order, i, dto.block_id as int, 0);
        }
    }
    if let Some(parent) = frame_in(store.frames, parent_id) {
        let entries = parent.child_order;
        if is_first_at(entries, at, entry) {
            entry_is(entries, at, entry, 0);
        }
        if !(exists|j: int| 0 <= j < entries.len() && #[trigger] entries[j] == entry) {
            entry_is_missing(entries, entry, 0);
        }
    }
}

/// An image is inserted wherever it is asked for in a document that has a block, if nothing
/// is wrong with the request; a document without one refuses it.
pub proof fn images_are_inserted(
    store: StoreModel,
    dto: InsertImageModel,
    doc_id: EntityId,
    first: EntityId,
)
    requires
        has_flow(store, doc_id, first),
        dto.position == dto.anchor,
        dto.width > 0,
        dto.height > 0,
        0 <= dto.quality <= 100,
        blocks_of_frame(store, first) is Ok,
    ensures
        ({
            let found = blocks_found(store.blocks, blocks_of_frame(store, first)->Ok_0);
            &&& found.len() > 0 ==> insert_plan(store, dto) is Ok
            &&& found.len() == 0 ==> insert_plan(store, dto) == Err::<InsertPlan, EditError>(
                EditError::NoBlocks,
            )
        }),
{
    let found = blocks_found(store.blocks, blocks_of_frame(store, first)->Ok_0);
    sorting_orders_the_items(found);
    broadcast use vstd::seq_lib::group_to_multiset_ensures;

    assert(sorted(found).to_multiset().len() == sorted(found).len());
    assert(found.to_multiset().len() == found.len());
}

} // verus!
