//! Puts a run of blocks into a frame of their own.
use vstd::prelude::*;

use crate::database::rope_store::{counter_of, restored, RopeStore, RopeStoreSnapshot, StoreModel};
use crate::database::rows::{block_in, find_block, find_frame, frame_in, put_row, Row, RowModel};
use crate::document_editing::edit_error::EditError;
use crate::document_editing::frames::{
    blocks_in, collect_block_ids, create_frame, drop_ids, entries_between, entry_at,
    find_block_owner_frame, find_entry, find_first_frame, first_frame, frame_ids_fit, ids_not_in,
    is_forest, locate_document, located_document, owner_of, reparent, reparented, splice_entries,
    spliced_entries, with_new_frame,
};
use crate::entities::{EntityId, Frame, FrameFormat, FrameModel, FramePosition};
use crate::models::group_deep_view;

verus! {

broadcast use group_deep_view;

/// Which blocks to wrap, and what the new frame looks like.
#[derive(Clone, Copy, Debug, PartialEq, Eq, Structural)]
pub struct WrapBlocksInFrameDto {
    pub start_block_id: i64,
    pub end_block_id: i64,
    pub top_margin: Option<i64>,
    pub bottom_margin: Option<i64>,
    pub left_margin: Option<i64>,
    pub right_margin: Option<i64>,
    pub padding: Option<i64>,
    pub border: Option<i64>,
    pub position: Option<FramePosition>,
    pub is_blockquote: Option<bool>,
}

/// The new frame, and where its first block begins.
#[derive(Clone, Copy, Debug, PartialEq, Eq, Structural)]
pub struct WrapBlocksInFrameResultDto {
    pub new_frame_id: i64,
    pub new_position: i64,
}

/// What a wrap moves: the children `start` to `end` of a frame.
pub struct WrapPlan {
    pub doc_id: EntityId,
    pub owner_id: EntityId,
    pub start: int,
    pub end: int,
    pub position: i64,
}

/// The frame that both ends of a wrap are in.
pub open spec fn common_owner(store: StoreModel, root: EntityId, dto: WrapBlocksInFrameDto) -> Result<
    EntityId,
    EditError,
> {
    match owner_of(store.frames, root, dto.start_block_id) {
        Err(e) => Err(e),
        Ok(None) => Err(EditError::StartBlockNotFound),
        Ok(Some(owner)) => match owner_of(store.frames, root, dto.end_block_id) {
            Err(e) => Err(e),
            Ok(None) => Err(EditError::EndBlockNotFound),
            Ok(Some(end_owner)) => if owner != end_owner {
                Err(EditError::DifferentFrames)
            } else {
                Ok(owner)
            },
        },
    }
}

/// The children of a frame that a wrap moves.
pub open spec fn wrapped_range(
    store: StoreModel,
    doc_id: EntityId,
    owner_id: EntityId,
    dto: WrapBlocksInFrameDto,
) -> Result<WrapPlan, EditError> {
    match frame_in(store.frames, owner_id) {
        None => Err(EditError::OwningFrameNotFound),
        Some(owner) => match entry_at(owner.child_order, dto.start_block_id as int) {
            None => Err(EditError::StartBlockNotInFrame),
            Some(start) => match entry_at(owner.child_order, dto.end_block_id as int) {
                None => Err(EditError::EndBlockNotInFrame),
                Some(end) => if end < start {
                    Err(EditError::EndBeforeStart)
                } else {
                    match block_in(store.blocks, dto.start_block_id as EntityId) {
                        None => Err(EditError::StartBlockDisappeared),
                        Some(block) => Ok(
                            WrapPlan {
                                doc_id,
                                owner_id,
                                start,
                                end,
                                position: block.document_position,
                            },
                        ),
                    }
                },
            },
        },
    }
}

/// What a wrap moves, or why it is refused.
pub open spec fn wrap_plan(store: StoreModel, dto: WrapBlocksInFrameDto) -> Result<
    WrapPlan,
    EditError,
> {
    match located_document(store) {
        Err(e) => Err(e),
        Ok(doc_id) => match first_frame(store, doc_id) {
            Err(e) => Err(e),
            Ok(root) => match common_owner(store, root, dto) {
                Err(e) => Err(e),
                Ok(owner_id) => wrapped_range(store, doc_id, owner_id, dto),
            },
        },
    }
}

/// The look of the new frame.
pub open spec fn wrap_format(dto: WrapBlocksInFrameDto) -> FrameFormat {
    FrameFormat {
        height: None,
        width: None,
        top_margin: dto.top_margin,
        bottom_margin: dto.bottom_margin,
        left_margin: dto.left_margin,
        right_margin: dto.right_margin,
        padding: dto.padding,
        border: dto.border,
        position: dto.position,
        is_blockquote: dto.is_blockquote,
    }
}

/// The new frame, which takes over the moved children.
pub open spec fn wrapping_frame(
    dto: WrapBlocksInFrameDto,
    owner_id: EntityId,
    moved: Seq<i64>,
    now: i64,
) -> FrameModel {
    FrameModel {
        id: 0,
        created_at: now,
        updated_at: now,
        parent_frame: Some(owner_id),
        blocks: blocks_in(moved),
        child_order: moved,
        format: wrap_format(dto),
        table: None,
        byte_range: (0, 0),
    }
}

/// The store after a wrap: the new frame holds the moved children, the frames
/// among them have it as their parent, and the frame that held them holds it in
/// their place.
pub open spec fn wrapped(
    store: StoreModel,
    dto: WrapBlocksInFrameDto,
    plan: WrapPlan,
    now: i64,
) -> StoreModel {
    let owner = frame_in(store.frames, plan.owner_id)->0;
    let moved = owner.child_order.subrange(plan.start, plan.end + 1);
    let id = counter_of(store.counters, "frame"@);
    let created = with_new_frame(
        store,
        plan.doc_id,
        wrapping_frame(dto, plan.owner_id, moved, now),
    );
    StoreModel {
        frames: reparented(created.frames, moved, id, now).insert(
            plan.owner_id,
            RowModel::Frame(
                FrameModel {
                    child_order: spliced_entries(
                        owner.child_order,
                        plan.start,
                        plan.end + 1,
                        seq![(-(id as int)) as i64],
                    ),
                    blocks: ids_not_in(owner.blocks, blocks_in(moved)),
                    updated_at: now,
                    ..owner
                },
            ),
        ),
        ..created
    }
}

/// What a wrap answers.
pub open spec fn wrap_result(store: StoreModel, plan: WrapPlan) -> WrapBlocksInFrameResultDto {
    WrapBlocksInFrameResultDto {
        new_frame_id: counter_of(store.counters, "frame"@) as i64,
        new_position: plan.position,
    }
}

/// Wraps blocks in a frame.
fn execute_wrap_blocks_in_frame(
    store: &mut RopeStore,
    dto: &WrapBlocksInFrameDto,
    now: i64,
) -> (res: Result<(WrapBlocksInFrameResultDto, RopeStoreSnapshot), EditError>)
    requires
        is_forest(old(store).deep_view().frames),
        frame_ids_fit(old(store).deep_view()),
    ensures
        match wrap_plan(old(store).deep_view(), *dto) {
            Ok(plan) => {
                &&& res matches Ok((answer, snapshot)) && answer == wrap_result(
                    old(store).deep_view(),
                    plan,
                ) && snapshot.deep_view() == old(store).deep_view()
                &&& final(store).deep_view() == wrapped(old(store).deep_view(), *dto, plan, now)
            },
            Err(e) => res matches Err(f) && e == f && *final(store) == *old(store),
        },
        final(store).saved() == old(store).saved(),
        final(store).next_saved() == old(store).next_saved(),
{
    let ghost before = store.deep_view();
    let doc_id: EntityId = match locate_document(store) {
        Ok(id) => id,
        Err(e) => return Err(e),
    };
    let root: EntityId = match find_first_frame(store, doc_id) {
        Ok(id) => id,
        Err(e) => return Err(e),
    };
    let owner_id: EntityId = match find_block_owner_frame(store, root, dto.start_block_id) {
        Ok(Some(id)) => id,
        Ok(None) => return Err(EditError::StartBlockNotFound),
        Err(e) => return Err(e),
    };
    let end_owner_id: EntityId = match find_block_owner_frame(store, root, dto.end_block_id) {
        Ok(Some(id)) => id,
        Ok(None) => return Err(EditError::EndBlockNotFound),
        Err(e) => return Err(e),
    };
    if owner_id != end_owner_id {
        return Err(EditError::DifferentFrames);
    }
    let owner: Frame = match find_frame(&store.frames, owner_id) {
        Some(frame) => frame.clone(),
        None => return Err(EditError::OwningFrameNotFound),
    };
    let start: usize = match find_entry(&owner.child_order, dto.start_block_id) {
        Some(i) => i,
        None => return Err(EditError::StartBlockNotInFrame),
    };
    let end: usize = match find_entry(&owner.child_order, dto.end_block_id) {
        Some(i) => i,
        None => return Err(EditError::EndBlockNotInFrame),
    };
    if end < start {
        return Err(EditError::EndBeforeStart);
    }
    proof {
        crate::document_editing::frames::owner_needs_a_block(before.frames, root, dto.start_block_id);
    }
    let position: i64 = match find_block(&store.blocks, dto.start_block_id as EntityId) {
        Some(block) => block.document_position,
        None => return Err(EditError::StartBlockDisappeared),
    };
    let snapshot = store.snapshot();
    let moved = entries_between(&owner.child_order, start, end + 1);
    let moved_blocks = collect_block_ids(&moved);
    let frame = Frame {
        id: 0,
        created_at: now,
        updated_at: now,
        parent_frame: Some(owner_id),
        blocks: crate::entities::copy_list(&moved_blocks),
        child_order: crate::entities::copy_list(&moved),
        format: FrameFormat {
            height: None,
            width: None,
            top_margin: dto.top_margin,
            bottom_margin: dto.bottom_margin,
            left_margin: dto.left_margin,
            right_margin: dto.right_margin,
            padding: dto.padding,
            border: dto.border,
            position: dto.position,
            is_blockquote: dto.is_blockquote,
        },
        table: None,
        byte_range: (0, 0),
    };
    let ghost plan = WrapPlan {
        doc_id,
        owner_id,
        start: start as int,
        end: end as int,
        position,
    };
    proof {
        assert(wrap_plan(before, *dto) == Ok::<WrapPlan, EditError>(plan));
        assert(frame.deep_view() =~= wrapping_frame(*dto, owner_id, moved@, now));
    }
    let id: EntityId = create_frame(store, doc_id, frame);
    reparent(&mut store.frames, &moved, id, now);
    let entry: i64 = -(id as i64);
    let replacement = vec![entry];
    let mut updated = owner.clone();
    updated.child_order = splice_entries(&owner.child_order, start, end + 1, &replacement);
    updated.blocks = drop_ids(&owner.blocks, &moved_blocks);
    updated.updated_at = now;
    proof {
        assert(replacement@ =~= seq![(-(id as int)) as i64]);
    }
    put_row(&mut store.frames, owner_id, Row::Frame(updated));
    assert(store.deep_view() =~= wrapped(before, *dto, plan, now));
    Ok((WrapBlocksInFrameResultDto { new_frame_id: id as i64, new_position: position }, snapshot))
}

/// Puts a run of blocks into a frame of their own.
pub struct WrapBlocksInFrameUseCase {
    pub undo_snapshot: Option<RopeStoreSnapshot>,
    pub last_dto: Option<WrapBlocksInFrameDto>,
}

impl WrapBlocksInFrameUseCase {
    pub fn new() -> (case: Self)
        ensures
            case.undo_snapshot is None,
            case.last_dto is None,
    {
        WrapBlocksInFrameUseCase { undo_snapshot: None, last_dto: None }
    }

    /// Wraps blocks, at the time `now`. A refused wrap leaves the store as it is.
    pub fn execute(&mut self, store: &mut RopeStore, dto: &WrapBlocksInFrameDto, now: i64) -> (res:
        Result<WrapBlocksInFrameResultDto, EditError>)
        requires
            is_forest(old(store).deep_view().frames),
            frame_ids_fit(old(store).deep_view()),
        ensures
            match wrap_plan(old(store).deep_view(), *dto) {
                Ok(plan) => {
                    &&& res == Ok::<WrapBlocksInFrameResultDto, EditError>(
                        wrap_result(old(store).deep_view(), plan),
                    )
                    &&& final(store).deep_view() == wrapped(old(store).deep_view(), *dto, plan, now)
                    &&& final(self).undo_snapshot.deep_view() == Some(old(store).deep_view())
                    &&& final(self).last_dto == Some(*dto)
                },
                Err(e) => {
                    &&& res == Err::<WrapBlocksInFrameResultDto, EditError>(e)
                    &&& *final(store) == *old(store)
                    &&& *final(self) == *old(self)
                },
            },
            final(store).saved() == old(store).saved(),
    {
        match execute_wrap_blocks_in_frame(store, dto, now) {
            Ok((answer, snapshot)) => {
                self.undo_snapshot = Some(snapshot);
                self.last_dto = Some(*dto);
                Ok(answer)
            },
            Err(e) => Err(e),
        }
    }

    /// Gives the store back as it was before the last wrap, but for the ids it has
    /// given out.
    pub fn undo(&mut self, store: &mut RopeStore) -> (res: Result<(), EditError>)
        ensures
            *final(self) == *old(self),
            match old(self).undo_snapshot.deep_view() {
                Some(before) => res is Ok && final(store).deep_view() == restored(
                    before,
                    old(store).deep_view(),
                ),
                None => res == Err::<(), EditError>(EditError::NothingToUndo) && *final(store)
                    == *old(store),
            },
            final(store).saved() == old(store).saved(),
    {
        match &self.undo_snapshot {
            Some(snapshot) => {
                store.restore_without_counters(snapshot);
                Ok(())
            },
            None => Err(EditError::NothingToUndo),
        }
    }

    /// Wraps the same blocks again.
    pub fn redo(&mut self, store: &mut RopeStore, now: i64) -> (res: Result<(), EditError>)
        requires
            is_forest(old(store).deep_view().frames),
            frame_ids_fit(old(store).deep_view()),
        ensures
            final(self).last_dto == old(self).last_dto,
            match old(self).last_dto {
                None => res == Err::<(), EditError>(EditError::NothingToRedo) && *final(store)
                    == *old(store) && *final(self) == *old(self),
                Some(dto) => match wrap_plan(old(store).deep_view(), dto) {
                    Ok(plan) => {
                        &&& res is Ok
                        &&& final(store).deep_view() == wrapped(
                            old(store).deep_view(),
                            dto,
                            plan,
                            now,
                        )
                        &&& final(self).undo_snapshot.deep_view() == Some(old(store).deep_view())
                    },
                    Err(e) => {
                        &&& res == Err::<(), EditError>(e)
                        &&& *final(store) == *old(store)
                        &&& *final(self) == *old(self)
                    },
                },
            },
            final(store).saved() == old(store).saved(),
    {
        let dto: WrapBlocksInFrameDto = match self.last_dto {
            Some(dto) => dto,
            None => return Err(EditError::NothingToRedo),
        };
        match execute_wrap_blocks_in_frame(store, &dto, now) {
            Ok((_, snapshot)) => {
                self.undo_snapshot = Some(snapshot);
                Ok(())
            },
            Err(e) => Err(e),
        }
    }
}

} // verus!
