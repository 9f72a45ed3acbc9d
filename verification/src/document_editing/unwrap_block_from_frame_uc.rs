//! Lifts a block out of its frame.
use vstd::prelude::*;

use crate::database::rope_store::{counter_of, restored, RopeStore, RopeStoreSnapshot, StoreModel};
use crate::database::rows::{
    block_in, document_in, find_block, find_frame, frame_in, put_row, Row, RowModel,
};
use crate::document_editing::edit_error::EditError;
use crate::document_editing::frames::{
    add_ids, blocks_in, collect_block_ids, create_frame, entries_between, entry_at,
    find_block_owner_frame, find_entry, find_first_frame, first_frame, frame_ids_fit, is_forest,
    locate_document, located_document, owner_of, remove_frame, reparent, reparented,
    splice_entries, spliced_entries, with_ids, with_new_frame, without_frame,
};
use crate::entities::{copy_list, EntityId, Frame, FrameModel};
use crate::models::group_deep_view;

verus! {

broadcast use group_deep_view;

/// Which block to lift out of its frame.
#[derive(Clone, Copy, Debug, PartialEq, Eq, Structural)]
pub struct UnwrapBlockFromFrameDto {
    pub block_id: i64,
}

/// Where the block begins.
#[derive(Clone, Copy, Debug, PartialEq, Eq, Structural)]
pub struct UnwrapBlockFromFrameResultDto {
    pub new_position: i64,
}

/// The block, its frame and the frame's parent, and the places of the one in the
/// other.
pub struct UnwrapBlockPlan {
    pub doc_id: EntityId,
    pub block_id: i64,
    pub owner_id: EntityId,
    pub parent_id: EntityId,
    pub block_at: int,
    pub owner_at: int,
}

/// The places of a block in its frame and of the frame in its parent.
pub open spec fn block_places(
    store: StoreModel,
    doc_id: EntityId,
    owner_id: EntityId,
    dto: UnwrapBlockFromFrameDto,
) -> Result<UnwrapBlockPlan, EditError> {
    match frame_in(store.frames, owner_id) {
        None => Err(EditError::OwningFrameNotFound),
        Some(owner) => match owner.parent_frame {
            None => Err(EditError::BlockInRootFrame),
            Some(parent_id) => match frame_in(store.frames, parent_id) {
                None => Err(EditError::ParentFrameNotFound),
                Some(parent) => if owner.table is Some {
                    Err(EditError::BlockInTableFrame)
                } else {
                    match entry_at(owner.child_order, dto.block_id as int) {
                        None => Err(EditError::BlockNotInFrame),
                        Some(block_at) => match entry_at(
                            parent.child_order,
                            -(owner_id as int),
                        ) {
                            None => Err(EditError::SourceNotInParent),
                            Some(owner_at) => Ok(
                                UnwrapBlockPlan {
                                    doc_id,
                                    block_id: dto.block_id,
                                    owner_id,
                                    parent_id,
                                    block_at,
                                    owner_at,
                                },
                            ),
                        },
                    }
                },
            },
        },
    }
}

/// What lifting a block out does, or why it is refused.
pub open spec fn unwrap_block_plan(store: StoreModel, dto: UnwrapBlockFromFrameDto) -> Result<
    UnwrapBlockPlan,
    EditError,
> {
    match located_document(store) {
        Err(e) => Err(e),
        Ok(doc_id) => match first_frame(store, doc_id) {
            Err(e) => Err(e),
            Ok(root) => match owner_of(store.frames, root, dto.block_id) {
                Err(e) => Err(e),
                Ok(None) => Err(EditError::BlockNotFound),
                Ok(Some(owner_id)) => block_places(store, doc_id, owner_id, dto),
            },
        },
    }
}

/// A new frame that looks like a block's old one, for what stood behind the block.
pub open spec fn sibling_frame(
    owner: FrameModel,
    parent_id: EntityId,
    entries: Seq<i64>,
    now: i64,
) -> FrameModel {
    FrameModel {
        id: 0,
        created_at: now,
        updated_at: now,
        parent_frame: Some(parent_id),
        blocks: blocks_in(entries),
        child_order: entries,
        format: owner.format,
        table: None,
        byte_range: (0, 0),
    }
}

/// The store with what stood behind the block in a frame of its own.
pub open spec fn tail_split_off(store: StoreModel, plan: UnwrapBlockPlan, now: i64) -> StoreModel {
    let owner = frame_in(store.frames, plan.owner_id)->0;
    let behind = owner.child_order.skip(plan.block_at + 1);
    let id = counter_of(store.counters, "frame"@);
    if behind.len() == 0 {
        store
    } else {
        let created = with_new_frame(
            store,
            plan.doc_id,
            sibling_frame(owner, plan.parent_id, behind, now),
        );
        StoreModel { frames: reparented(created.frames, behind, id, now), ..created }
    }
}

/// The store with the block's old frame cut down to what stood before the block,
/// or gone where nothing did.
pub open spec fn head_kept(
    store: StoreModel,
    owner: FrameModel,
    plan: UnwrapBlockPlan,
    now: i64,
) -> StoreModel {
    let before = owner.child_order.take(plan.block_at);
    if before.len() > 0 {
        StoreModel {
            frames: store.frames.insert(
                plan.owner_id,
                RowModel::Frame(
                    FrameModel {
                        child_order: before,
                        blocks: blocks_in(before),
                        updated_at: now,
                        ..owner
                    },
                ),
            ),
            ..store
        }
    } else {
        without_frame(store, plan.doc_id, plan.owner_id)
    }
}

/// What stands in the parent in place of the block's old frame: that frame, if
/// something is left in it; the block; and the frame of what stood behind it, if
/// anything did.
pub open spec fn lifted_entries(store: StoreModel, plan: UnwrapBlockPlan) -> Seq<i64> {
    let owner = frame_in(store.frames, plan.owner_id)->0;
    let head = if plan.block_at > 0 {
        seq![(-(plan.owner_id as int)) as i64]
    } else {
        Seq::empty()
    };
    let tail = if plan.block_at + 1 < owner.child_order.len() {
        seq![(-(counter_of(store.counters, "frame"@) as int)) as i64]
    } else {
        Seq::empty()
    };
    head + seq![plan.block_id] + tail
}

/// The store after a block was lifted out of its frame.
pub open spec fn block_unwrapped(store: StoreModel, plan: UnwrapBlockPlan, now: i64) -> StoreModel {
    let owner = frame_in(store.frames, plan.owner_id)->0;
    let parent = frame_in(store.frames, plan.parent_id)->0;
    let cut = head_kept(tail_split_off(store, plan, now), owner, plan, now);
    StoreModel {
        frames: cut.frames.insert(
            plan.parent_id,
            RowModel::Frame(
                FrameModel {
                    child_order: spliced_entries(
                        parent.child_order,
                        plan.owner_at,
                        plan.owner_at + 1,
                        lifted_entries(store, plan),
                    ),
                    blocks: with_ids(parent.blocks, seq![plan.block_id as EntityId]),
                    updated_at: now,
                    ..parent
                },
            ),
        ),
        ..cut
    }
}

/// What lifting a block out answers.
pub open spec fn unwrap_block_answer(store: StoreModel, plan: UnwrapBlockPlan) -> UnwrapBlockFromFrameResultDto {
    UnwrapBlockFromFrameResultDto {
        new_position: match block_in(store.blocks, plan.block_id as EntityId) {
            Some(block) => block.document_position,
            None => 0,
        },
    }
}

/// Puts what stood behind the block into a frame of its own. Returns its id, if
/// there is one.
fn split_off_tail(
    store: &mut RopeStore,
    doc_id: EntityId,
    owner: &Frame,
    parent_id: EntityId,
    block_at: usize,
    now: i64,
    Ghost(plan): Ghost<UnwrapBlockPlan>,
) -> (id: Option<EntityId>)
    requires
        document_in(old(store).deep_view().documents, doc_id) is Some,
        counter_of(old(store).deep_view().counters, "frame"@) < u64::MAX,
        block_at < owner.child_order@.len(),
        plan.doc_id == doc_id,
        plan.parent_id == parent_id,
        plan.block_at == block_at,
        frame_in(old(store).deep_view().frames, plan.owner_id) == Some(owner.deep_view()),
    ensures
        final(store).deep_view() == tail_split_off(old(store).deep_view(), plan, now),
        id == if block_at + 1 < owner.child_order@.len() {
            Some(counter_of(old(store).deep_view().counters, "frame"@))
        } else {
            None
        },
        document_in(final(store).deep_view().documents, doc_id) is Some,
        final(store).saved() == old(store).saved(),
        final(store).next_saved() == old(store).next_saved(),
{
    let ghost before = store.deep_view();
    let count: usize = owner.child_order.len();
    let behind = entries_between(&owner.child_order, block_at + 1, count);
    assert(behind@ =~= owner.child_order@.skip(block_at + 1));
    if behind.len() == 0 {
        return None;
    }
    let frame = Frame {
        id: 0,
        created_at: now,
        updated_at: now,
        parent_frame: Some(parent_id),
        blocks: collect_block_ids(&behind),
        child_order: copy_list(&behind),
        format: owner.format,
        table: None,
        byte_range: (0, 0),
    };
    assert(frame.deep_view() =~= sibling_frame(owner.deep_view(), parent_id, behind@, now));
    let id: EntityId = create_frame(store, doc_id, frame);
    reparent(&mut store.frames, &behind, id, now);
    assert(store.deep_view() =~= tail_split_off(before, plan, now));
    Some(id)
}

/// Lifts a block out of its frame.
fn execute_unwrap_block_from_frame(
    store: &mut RopeStore,
    dto: &UnwrapBlockFromFrameDto,
    now: i64,
) -> (res: Result<(UnwrapBlockFromFrameResultDto, RopeStoreSnapshot), EditError>)
    requires
        is_forest(old(store).deep_view().frames),
        frame_ids_fit(old(store).deep_view()),
    ensures
        match unwrap_block_plan(old(store).deep_view(), *dto) {
            Ok(plan) => {
                &&& res matches Ok((answer, snapshot)) && answer == unwrap_block_answer(
                    old(store).deep_view(),
                    plan,
                ) && snapshot.deep_view() == old(store).deep_view()
                &&& final(store).deep_view() == block_unwrapped(old(store).deep_view(), plan, now)
            },
            Err(e) => res matches Err(f) && e == f && *final(store) == *old(store),
        },
        final(store).saved() == old(store).saved(),
        final(store).next_saved() == old(store).next_saved(),
{
    let ghost before = store.deep_view();
    let doc_id: EntityId = match locate_document(store) {
        Ok(id) => id,
        Err(e) => return Err(e),
    };
    let root: EntityId = match find_first_frame(store, doc_id) {
        Ok(id) => id,
        Err(e) => return Err(e),
    };
    let owner_id: EntityId = match find_block_owner_frame(store, root, dto.block_id) {
        Ok(Some(id)) => id,
        Ok(None) => return Err(EditError::BlockNotFound),
        Err(e) => return Err(e),
    };
    let owner: Frame = match find_frame(&store.frames, owner_id) {
        Some(frame) => frame.clone(),
        None => return Err(EditError::OwningFrameNotFound),
    };
    let parent_id: EntityId = match owner.parent_frame {
        Some(id) => id,
        None => return Err(EditError::BlockInRootFrame),
    };
    let parent: Frame = match find_frame(&store.frames, parent_id) {
        Some(frame) => frame.clone(),
        None => return Err(EditError::ParentFrameNotFound),
    };
    if owner.table.is_some() {
        return Err(EditError::BlockInTableFrame);
    }
    let block_at: usize = match find_entry(&owner.child_order, dto.block_id) {
        Some(at) => at,
        None => return Err(EditError::BlockNotInFrame),
    };
    proof {
        crate::document_editing::frames::owner_needs_a_block(before.frames, root, dto.block_id);
        assert(before.frames.dom().contains(owner_id));
    }
    let owner_entry: i64 = -(owner_id as i64);
    let owner_at: usize = match find_entry(&parent.child_order, owner_entry) {
        Some(at) => at,
        None => return Err(EditError::SourceNotInParent),
    };
    let ghost plan = UnwrapBlockPlan {
        doc_id,
        block_id: dto.block_id,
        owner_id,
        parent_id,
        block_at: block_at as int,
        owner_at: owner_at as int,
    };
    assert(unwrap_block_plan(before, *dto) == Ok::<UnwrapBlockPlan, EditError>(plan));
    let block_id: EntityId = dto.block_id as EntityId;
    let new_position: i64 = match find_block(&store.blocks, block_id) {
        Some(block) => block.document_position,
        None => 0,
    };
    let snapshot = store.snapshot();
    let sibling = split_off_tail(store, doc_id, &owner, parent_id, block_at, now, Ghost(plan));
    let ghost split = store.deep_view();
    let mut entries: Vec<i64> = Vec::new();
    if block_at > 0 {
        let head = entries_between(&owner.child_order, 0, block_at);
        assert(head@ =~= owner.child_order@.take(block_at as int));
        let mut updated = owner.clone();
        updated.blocks = collect_block_ids(&head);
        updated.child_order = head;
        updated.updated_at = now;
        put_row(&mut store.frames, owner_id, Row::Frame(updated));
        entries.push(owner_entry);
        assert(store.deep_view() =~= head_kept(split, owner.deep_view(), plan, now));
    } else {
        remove_frame(store, doc_id, owner_id);
        assert(owner.child_order@.take(0).len() == 0);
    }
    let ghost cut = store.deep_view();
    assert(cut == head_kept(split, owner.deep_view(), plan, now));
    entries.push(dto.block_id);
    if let Some(id) = sibling {
        entries.push(-(id as i64));
    }
    assert(entries@ =~= lifted_entries(before, plan));
    let mut updated = parent.clone();
    assert(owner_at < parent.child_order.len());
    updated.child_order = splice_entries(&parent.child_order, owner_at, owner_at + 1, &entries);
    let lifted = vec![block_id];
    assert(lifted@ =~= seq![dto.block_id as EntityId]);
    add_ids(&mut updated.blocks, &lifted);
    updated.updated_at = now;
    put_row(&mut store.frames, parent_id, Row::Frame(updated));
    assert(store.deep_view() =~= block_unwrapped(before, plan, now));
    Ok((UnwrapBlockFromFrameResultDto { new_position }, snapshot))
}

/// Lifts a block out of its frame.
pub struct UnwrapBlockFromFrameUseCase {
    pub undo_snapshot: Option<RopeStoreSnapshot>,
    pub last_dto: Option<UnwrapBlockFromFrameDto>,
}

impl UnwrapBlockFromFrameUseCase {
    pub fn new() -> (case: Self)
        ensures
            case.undo_snapshot is None,
            case.last_dto is None,
    {
        UnwrapBlockFromFrameUseCase { undo_snapshot: None, last_dto: None }
    }

    /// Lifts a block out of its frame, at the time `now`. What is refused leaves the store as it is.
    pub fn execute(&mut self, store: &mut RopeStore, dto: &UnwrapBlockFromFrameDto, now: i64) -> (res: Result<
        UnwrapBlockFromFrameResultDto,
        EditError,
    >)
        requires
            is_forest(old(store).deep_view().frames),
            frame_ids_fit(old(store).deep_view()),
        ensures
            match unwrap_block_plan(old(store).deep_view(), *dto) {
                Ok(plan) => {
                    &&& res == Ok::<UnwrapBlockFromFrameResultDto, EditError>(
                        unwrap_block_answer(old(store).deep_view(), plan),
                    )
                    &&& final(store).deep_view() == block_unwrapped(old(store).deep_view(), plan, now)
                    &&& final(self).undo_snapshot.deep_view() == Some(old(store).deep_view())
                    &&& final(self).last_dto == Some(*dto)
                },
                Err(e) => {
                    &&& res == Err::<UnwrapBlockFromFrameResultDto, EditError>(e)
                    &&& *final(store) == *old(store)
                    &&& *final(self) == *old(self)
                },
            },
            final(store).saved() == old(store).saved(),
    {
        match execute_unwrap_block_from_frame(store, dto, now) {
            Ok((answer, snapshot)) => {
                self.undo_snapshot = Some(snapshot);
                self.last_dto = Some(*dto);
                Ok(answer)
            },
            Err(e) => Err(e),
        }
    }

    /// Gives the store back as it was before the last lift, but for the ids it has
    /// given out.
    pub fn undo(&mut self, store: &mut RopeStore) -> (res: Result<(), EditError>)
        ensures
            *final(self) == *old(self),
            match old(self).undo_snapshot.deep_view() {
                Some(before) => res is Ok && final(store).deep_view() == restored(
                    before,
                    old(store).deep_view(),
                ),
                None => res == Err::<(), EditError>(EditError::NothingToUndo) && *final(store)
                    == *old(store),
            },
            final(store).saved() == old(store).saved(),
    {
        match &self.undo_snapshot {
            Some(snapshot) => {
                store.restore_without_counters(snapshot);
                Ok(())
            },
            None => Err(EditError::NothingToUndo),
        }
    }

    /// Does the last lift again.
    pub fn redo(&mut self, store: &mut RopeStore, now: i64) -> (res: Result<(), EditError>)
        requires
            is_forest(old(store).deep_view().frames),
            frame_ids_fit(old(store).deep_view()),
        ensures
            final(self).last_dto == old(self).last_dto,
            match old(self).last_dto {
                None => res == Err::<(), EditError>(EditError::NothingToRedo) && *final(store)
                    == *old(store) && *final(self) == *old(self),
                Some(dto) => match unwrap_block_plan(old(store).deep_view(), dto) {
                    Ok(plan) => {
                        &&& res is Ok
                        &&& final(store).deep_view() == block_unwrapped(
                            old(store).deep_view(),
                            plan,
                            now,
                        )
                        &&& final(self).undo_snapshot.deep_view() == Some(old(store).deep_view())
                    },
                    Err(e) => {
                        &&& res == Err::<(), EditError>(e)
                        &&& *final(store) == *old(store)
                        &&& *final(self) == *old(self)
                    },
                },
            },
            final(store).saved() == old(store).saved(),
    {
        let dto: UnwrapBlockFromFrameDto = match self.last_dto {
            Some(dto) => dto,
            None => return Err(EditError::NothingToRedo),
        };
        match execute_unwrap_block_from_frame(store, &dto, now) {
            Ok((_, snapshot)) => {
                self.undo_snapshot = Some(snapshot);
                Ok(())
            },
            Err(e) => Err(e),
        }
    }
}

} // verus!
