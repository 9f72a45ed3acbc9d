//! Puts the children of a frame in the place of the frame.
use vstd::prelude::*;

use crate::database::rope_store::{restored, RopeStore, RopeStoreSnapshot, StoreModel};
use crate::database::rows::{block_in, find_block, find_frame, frame_in, put_row, Row, RowModel};
use crate::document_editing::edit_error::EditError;
use crate::document_editing::frames::{
    add_ids, blocks_in, collect_block_ids, entry_at, find_entry, locate_document,
    located_document, remove_frame, reparent, reparented, splice_entries, spliced_entries,
    with_ids, without_frame,
};
use crate::entities::{EntityId, Frame, FrameModel};
use crate::models::group_deep_view;

verus! {

broadcast use group_deep_view;

/// Which frame to unwrap.
#[derive(Clone, Copy, Debug, PartialEq, Eq, Structural)]
pub struct UnwrapFrameDto {
    pub frame_id: i64,
}

/// Where the first of the blocks that were in the frame begins.
#[derive(Clone, Copy, Debug, PartialEq, Eq, Structural)]
pub struct UnwrapFrameResultDto {
    pub new_position: i64,
}

/// The frame to unwrap, its parent, and its place in the parent.
pub struct UnwrapFramePlan {
    pub doc_id: EntityId,
    pub frame_id: EntityId,
    pub parent_id: EntityId,
    pub at: int,
}

/// The id that a signed number stands for.
pub open spec fn as_id(n: i64) -> EntityId {
    if n < 0 {
        (n + 0x1_0000_0000_0000_0000) as EntityId
    } else {
        n as EntityId
    }
}

/// The id that a signed number stands for.
fn to_id(n: i64) -> (id: EntityId)
    ensures
        id == as_id(n),
{
    if n < 0 {
        (n as i128 + 0x1_0000_0000_0000_0000) as u64
    } else {
        n as u64
    }
}

/// The frame to unwrap and its parent, or why the unwrap is refused.
pub open spec fn unwrap_frame_plan(store: StoreModel, dto: UnwrapFrameDto) -> Result<
    UnwrapFramePlan,
    EditError,
> {
    let frame_id = as_id(dto.frame_id);
    match located_document(store) {
        Err(e) => Err(e),
        Ok(doc_id) => match frame_in(store.frames, frame_id) {
            None => Err(EditError::NamedFrameNotFound(frame_id)),
            Some(frame) => match frame.parent_frame {
                None => Err(EditError::TopLevelFrame),
                Some(parent_id) => if frame.table is Some {
                    Err(EditError::TableAnchorFrame)
                } else {
                    match frame_in(store.frames, parent_id) {
                        None => Err(EditError::NamedParentNotFound(parent_id)),
                        Some(parent) => match entry_at(
                            parent.child_order,
                            -(dto.frame_id as int),
                        ) {
                            None => Err(EditError::EntryNotInParent),
                            Some(at) => Ok(UnwrapFramePlan { doc_id, frame_id, parent_id, at }),
                        },
                    }
                },
            },
        },
    }
}

/// The store after an unwrap: the children of the frame stand in its place, the
/// frames among them have its parent as theirs, and the frame is gone.
pub open spec fn frame_unwrapped(
    store: StoreModel,
    plan: UnwrapFramePlan,
    now: i64,
) -> StoreModel {
    let frame = frame_in(store.frames, plan.frame_id)->0;
    let parent = frame_in(store.frames, plan.parent_id)->0;
    let lifted = StoreModel {
        frames: reparented(store.frames, frame.child_order, plan.parent_id, now).insert(
            plan.parent_id,
            RowModel::Frame(
                FrameModel {
                    child_order: spliced_entries(
                        parent.child_order,
                        plan.at,
                        plan.at + 1,
                        frame.child_order,
                    ),
                    blocks: with_ids(parent.blocks, blocks_in(frame.child_order)),
                    updated_at: now,
                    ..parent
                },
            ),
        ),
        ..store
    };
    without_frame(lifted, plan.doc_id, plan.frame_id)
}

/// What an unwrap answers: where the first block that was in the frame begins,
/// or zero where there was none.
pub open spec fn unwrap_frame_answer(store: StoreModel, plan: UnwrapFramePlan) -> UnwrapFrameResultDto {
    let moved = blocks_in(frame_in(store.frames, plan.frame_id)->0.child_order);
    UnwrapFrameResultDto {
        new_position: if moved.len() > 0 && block_in(store.blocks, moved[0]) is Some {
            block_in(store.blocks, moved[0])->0.document_position
        } else {
            0
        },
    }
}

/// Unwraps a frame.
fn execute_unwrap_frame(store: &mut RopeStore, dto: &UnwrapFrameDto, now: i64) -> (res: Result<
    (UnwrapFrameResultDto, RopeStoreSnapshot),
    EditError,
>)
    requires
        dto.frame_id > i64::MIN,
    ensures
        match unwrap_frame_plan(old(store).deep_view(), *dto) {
            Ok(plan) => {
                &&& res matches Ok((answer, snapshot)) && answer == unwrap_frame_answer(
                    old(store).deep_view(),
                    plan,
                ) && snapshot.deep_view() == old(store).deep_view()
                &&& final(store).deep_view() == frame_unwrapped(old(store).deep_view(), plan, now)
            },
            Err(e) => res matches Err(f) && e == f && *final(store) == *old(store),
        },
        final(store).saved() == old(store).saved(),
        final(store).next_saved() == old(store).next_saved(),
{
    let ghost before = store.deep_view();
    let doc_id: EntityId = match locate_document(store) {
        Ok(id) => id,
        Err(e) => return Err(e),
    };
    let frame_id: EntityId = to_id(dto.frame_id);
    let frame: Frame = match find_frame(&store.frames, frame_id) {
        Some(frame) => frame.clone(),
        None => return Err(EditError::NamedFrameNotFound(frame_id)),
    };
    let parent_id: EntityId = match frame.parent_frame {
        Some(id) => id,
        None => return Err(EditError::TopLevelFrame),
    };
    if frame.table.is_some() {
        return Err(EditError::TableAnchorFrame);
    }
    let parent: Frame = match find_frame(&store.frames, parent_id) {
        Some(parent) => parent.clone(),
        None => return Err(EditError::NamedParentNotFound(parent_id)),
    };
    let at: usize = match find_entry(&parent.child_order, -dto.frame_id) {
        Some(at) => at,
        None => return Err(EditError::EntryNotInParent),
    };
    let ghost plan = UnwrapFramePlan { doc_id, frame_id, parent_id, at: at as int };
    assert(unwrap_frame_plan(before, *dto) == Ok::<UnwrapFramePlan, EditError>(plan));
    let snapshot = store.snapshot();
    let moved = collect_block_ids(&frame.child_order);
    let new_position: i64 = if moved.len() > 0 {
        match find_block(&store.blocks, moved[0]) {
            Some(block) => block.document_position,
            None => 0,
        }
    } else {
        0
    };
    // The frames among the children get the new parent.
    reparent(&mut store.frames, &frame.child_order, parent_id, now);
    let mut updated = parent.clone();
    updated.child_order = splice_entries(&parent.child_order, at, at + 1, &frame.child_order);
    add_ids(&mut updated.blocks, &moved);
    updated.updated_at = now;
    put_row(&mut store.frames, parent_id, Row::Frame(updated));
    remove_frame(store, doc_id, frame_id);
    assert(store.deep_view() =~= frame_unwrapped(before, plan, now));
    Ok((UnwrapFrameResultDto { new_position }, snapshot))
}

/// Puts the children of a frame in the place of the frame.
pub struct UnwrapFrameUseCase {
    pub undo_snapshot: Option<RopeStoreSnapshot>,
    pub last_dto: Option<UnwrapFrameDto>,
}

impl UnwrapFrameUseCase {
    pub fn new() -> (case: Self)
        ensures
            case.undo_snapshot is None,
            case.last_dto is None,
    {
        UnwrapFrameUseCase { undo_snapshot: None, last_dto: None }
    }

    /// Puts the children of a frame in the place of the frame, at the time `now`. What is refused leaves the store as it is.
    pub fn execute(&mut self, store: &mut RopeStore, dto: &UnwrapFrameDto, now: i64) -> (res: Result<
        UnwrapFrameResultDto,
        EditError,
    >)
        requires
            dto.frame_id > i64::MIN,
        ensures
            match unwrap_frame_plan(old(store).deep_view(), *dto) {
                Ok(plan) => {
                    &&& res == Ok::<UnwrapFrameResultDto, EditError>(
                        unwrap_frame_answer(old(store).deep_view(), plan),
                    )
                    &&& final(store).deep_view() == frame_unwrapped(old(store).deep_view(), plan, now)
                    &&& final(self).undo_snapshot.deep_view() == Some(old(store).deep_view())
                    &&& final(self).last_dto == Some(*dto)
                },
                Err(e) => {
                    &&& res == Err::<UnwrapFrameResultDto, EditError>(e)
                    &&& *final(store) == *old(store)
                    &&& *final(self) == *old(self)
                },
            },
            final(store).saved() == old(store).saved(),
    {
        match execute_unwrap_frame(store, dto, now) {
            Ok((answer, snapshot)) => {
                self.undo_snapshot = Some(snapshot);
                self.last_dto = Some(*dto);
                Ok(answer)
            },
            Err(e) => Err(e),
        }
    }

    /// Gives the store back as it was before the last unwrap, but for the ids it has
    /// given out.
    pub fn undo(&mut self, store: &mut RopeStore) -> (res: Result<(), EditError>)
        ensures
            *final(self) == *old(self),
            match old(self).undo_snapshot.deep_view() {
                Some(before) => res is Ok && final(store).deep_view() == restored(
                    before,
                    old(store).deep_view(),
                ),
                None => res == Err::<(), EditError>(EditError::NothingToUndo) && *final(store)
                    == *old(store),
            },
            final(store).saved() == old(store).saved(),
    {
        match &self.undo_snapshot {
            Some(snapshot) => {
                store.restore_without_counters(snapshot);
                Ok(())
            },
            None => Err(EditError::NothingToUndo),
        }
    }

    /// Does the last unwrap again.
    pub fn redo(&mut self, store: &mut RopeStore, now: i64) -> (res: Result<(), EditError>)
        requires
            old(self).last_dto matches Some(dto) ==> dto.frame_id > i64::MIN,
        ensures
            final(self).last_dto == old(self).last_dto,
            match old(self).last_dto {
                None => res == Err::<(), EditError>(EditError::NothingToRedo) && *final(store)
                    == *old(store) && *final(self) == *old(self),
                Some(dto) => match unwrap_frame_plan(old(store).deep_view(), dto) {
                    Ok(plan) => {
                        &&& res is Ok
                        &&& final(store).deep_view() == frame_unwrapped(
                            old(store).deep_view(),
                            plan,
                            now,
                        )
                        &&& final(self).undo_snapshot.deep_view() == Some(old(store).deep_view())
                    },
                    Err(e) => {
                        &&& res == Err::<(), EditError>(e)
                        &&& *final(store) == *old(store)
                        &&& *final(self) == *old(self)
                    },
                },
            },
            final(store).saved() == old(store).saved(),
    {
        let dto: UnwrapFrameDto = match self.last_dto {
            Some(dto) => dto,
            None => return Err(EditError::NothingToRedo),
        };
        match execute_unwrap_frame(store, &dto, now) {
            Ok((_, snapshot)) => {
                self.undo_snapshot = Some(snapshot);
                Ok(())
            },
            Err(e) => Err(e),
        }
    }
}

} // verus!
