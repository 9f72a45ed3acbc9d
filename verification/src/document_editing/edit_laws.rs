//! What the edits of frames keep, and what they undo.
use vstd::prelude::*;

use crate::database::rope_store::{counter_of, restored, StoreModel};
use crate::database::rows::{document_in, frame_in, RowModel};
use crate::document_editing::edit_error::EditError;
use crate::document_editing::frames::{
    blocks_in, child, child_count, entry_from, first_frame, frame_ids_fit, ids_not_in, is_forest,
    is_rank, rank_in, reparented, spliced_entries, sub_frame, with_ids, with_new_frame, without_id,
};
use crate::document_editing::insert_image_uc::{image_inserted, InsertImageModel, InsertPlan};
use crate::document_editing::unwrap_block_from_frame_uc::{
    block_unwrapped, lifted_entries, sibling_frame, unwrap_block_plan, UnwrapBlockFromFrameDto,
    UnwrapBlockPlan,
};
use crate::document_editing::unwrap_frame_uc::{
    frame_unwrapped, unwrap_frame_answer, unwrap_frame_plan, UnwrapFrameDto, UnwrapFramePlan,
};
use crate::document_editing::wrap_blocks_in_frame_uc::{
    wrap_plan, wrap_result, wrapped, wrapping_frame, WrapBlocksInFrameDto, WrapPlan,
};
use crate::entities::{EntityId, FrameModel};
use crate::order::{in_key_order, lookup_gives_back_what_was_set};

verus! {

/// The children of a frame; none where there is no such frame.
pub open spec fn children(frames: Map<EntityId, RowModel>, id: EntityId) -> Seq<i64> {
    match frame_in(frames, id) {
        Some(frame) => frame.child_order,
        None => Seq::empty(),
    }
}

/// Whether the frames of a store, and those that they name as children, have ids
/// that were given out.
pub open spec fn frames_given_out(store: StoreModel) -> bool {
    let next = counter_of(store.counters, "frame"@);
    &&& 0 < next
    &&& forall|id: EntityId| #[trigger] store.frames.dom().contains(id) ==> 0 < id < next
    &&& forall|id: EntityId, k: int|
        0 <= k < children(store.frames, id).len() && #[trigger] children(store.frames, id)[k] < 0
            ==> sub_frame(children(store.frames, id)[k]) < next
}

/// Whether every frame ranks above the frames among its children.
spec fn ranked(frames: Map<EntityId, RowModel>, rank: spec_fn(EntityId) -> nat) -> bool {
    forall|id: EntityId, k: int|
        0 <= k < children(frames, id).len() && #[trigger] children(frames, id)[k] < 0 ==> rank(
            sub_frame(children(frames, id)[k]),
        ) < rank(id)
}

proof fn ranked_is_rank(frames: Map<EntityId, RowModel>, rank: spec_fn(EntityId) -> nat)
    ensures
        ranked(frames, rank) <==> is_rank(frames, rank),
{
    if ranked(frames, rank) {
        assert forall|id: EntityId, k: int|
            0 <= k < child_count(frames, id) && #[trigger] child(frames, id, k) < 0 implies rank(
            sub_frame(child(frames, id, k)),
        ) < rank(id) by {
            assert(children(frames, id)[k] == child(frames, id, k));
        }
    }
    if is_rank(frames, rank) {
        assert forall|id: EntityId, k: int|
            0 <= k < children(frames, id).len() && #[trigger] children(frames, id)[k]
                < 0 implies rank(sub_frame(children(frames, id)[k])) < rank(id) by {
            assert(child(frames, id, k) == children(frames, id)[k]);
        }
    }
}

/// The first position of an entry holds it, and none before does.
proof fn entry_is_there(entries: Seq<i64>, entry: int, i: int)
    requires
        0 <= i,
    ensures
        entry_from(entries, entry, i) matches Some(at) ==> i <= at < entries.len() && entries[at]
            == entry,
    decreases entries.len() - i,
{
    if i < entries.len() && entries[i] != entry {
        entry_is_there(entries, entry, i + 1);
    }
}

/// An entry is found where it stands, if it stands nowhere before.
proof fn entry_is_found(entries: Seq<i64>, entry: int, i: int, at: int)
    requires
        0 <= i <= at < entries.len(),
        entries[at] == entry,
        forall|k: int| i <= k < at ==> #[trigger] entries[k] != entry,
    ensures
        entry_from(entries, entry, i) == Some(at),
    decreases at - i,
{
    if i < at {
        entry_is_found(entries, entry, i + 1, at);
    }
}

/// Moving frames under a parent changes nothing of a frame but its parent and when
/// it was changed, and nothing at all of a frame that is not among the entries.
proof fn reparenting_keeps(
    frames: Map<EntityId, RowModel>,
    entries: Seq<i64>,
    parent: EntityId,
    now: i64,
    id: EntityId,
)
    ensures
        ({
            let moved = reparented(frames, entries, parent, now);
            &&& moved.dom() == frames.dom()
            &&& frame_in(moved, id) is Some <==> frame_in(frames, id) is Some
            &&& frame_in(frames, id) matches Some(frame) ==> frame_in(moved, id) == Some(
                FrameModel {
                    parent_frame: frame_in(moved, id)->0.parent_frame,
                    updated_at: frame_in(moved, id)->0.updated_at,
                    ..frame
                },
            )
            &&& children(moved, id) == children(frames, id)
            &&& (forall|k: int|
                0 <= k < entries.len() ==> !(#[trigger] entries[k] < 0 && sub_frame(entries[k])
                    == id)) ==> frame_in(moved, id) == frame_in(frames, id)
        }),
    decreases entries.len(),
{
    if entries.len() > 0 {
        let rest = entries.drop_last();
        reparenting_keeps(frames, rest, parent, now, id);
        reparenting_keeps(frames, rest, parent, now, sub_frame(entries.last()));
        let moved = reparented(frames, entries, parent, now);
        assert(moved.dom() =~= frames.dom());
        if forall|k: int|
            0 <= k < entries.len() ==> !(#[trigger] entries[k] < 0 && sub_frame(entries[k]) == id) {
            assert forall|k: int| 0 <= k < rest.len() implies !(#[trigger] rest[k] < 0
                && sub_frame(rest[k]) == id) by {
                assert(rest[k] == entries[k]);
            }
            assert(entries.last() == entries[entries.len() - 1]);
        }
    }
}

/// Where a plan for a wrap comes from: the frame is there, and it holds the range.
pub(crate) proof fn wrap_plan_holds(store: StoreModel, dto: WrapBlocksInFrameDto, plan: WrapPlan)
    requires
        wrap_plan(store, dto) == Ok::<WrapPlan, EditError>(plan),
    ensures
        frame_in(store.frames, plan.owner_id) is Some,
        0 <= plan.start <= plan.end < children(store.frames, plan.owner_id).len(),
        document_in(store.documents, plan.doc_id) is Some,
        children(store.frames, plan.owner_id)[plan.start] == dto.start_block_id,
        children(store.frames, plan.owner_id)[plan.end] == dto.end_block_id,
{
    let entries = children(store.frames, plan.owner_id);
    entry_is_there(entries, dto.start_block_id as int, 0);
    entry_is_there(entries, dto.end_block_id as int, 0);
}

/// The children that a wrap moves.
pub open spec fn moved_children(store: StoreModel, plan: WrapPlan) -> Seq<i64> {
    children(store.frames, plan.owner_id).subrange(plan.start, plan.end + 1)
}

/// A wrap gives the new frame the moved children, puts it in their place, and
/// leaves the children of every other frame as they are.
pub proof fn wrap_moves_a_range(
    store: StoreModel,
    dto: WrapBlocksInFrameDto,
    plan: WrapPlan,
    now: i64,
    id: EntityId,
)
    requires
        wrap_plan(store, dto) == Ok::<WrapPlan, EditError>(plan),
        frames_given_out(store),
    ensures
        children(wrapped(store, dto, plan, now).frames, id) == if id == plan.owner_id {
            spliced_entries(
                children(store.frames, id),
                plan.start,
                plan.end + 1,
                seq![(-(counter_of(store.counters, "frame"@) as int)) as i64],
            )
        } else if id == counter_of(store.counters, "frame"@) {
            moved_children(store, plan)
        } else {
            children(store.frames, id)
        },
        wrapped(store, dto, plan, now).frames.dom() == store.frames.dom().insert(
            counter_of(store.counters, "frame"@),
        ),
{
    wrap_plan_holds(store, dto, plan);
    let new = counter_of(store.counters, "frame"@);
    let moved = moved_children(store, plan);
    let created = with_new_frame(
        store,
        plan.doc_id,
        wrapping_frame(dto, plan.owner_id, moved, now),
    );
    reparenting_keeps(created.frames, moved, new, now, id);
    assert(wrapped(store, dto, plan, now).frames.dom() =~= store.frames.dom().insert(new));
}

/// What a wrap leaves of each frame: whether it is there, and whether it is a
/// table. The new frame is none.
pub(crate) proof fn wrap_keeps_other_frames(
    store: StoreModel,
    dto: WrapBlocksInFrameDto,
    plan: WrapPlan,
    now: i64,
    id: EntityId,
)
    requires
        wrap_plan(store, dto) == Ok::<WrapPlan, EditError>(plan),
        frames_given_out(store),
    ensures
        ({
            let new = counter_of(store.counters, "frame"@);
            let after = wrapped(store, dto, plan, now);
            &&& frame_in(after.frames, id) is Some <==> id == new || frame_in(
                store.frames,
                id,
            ) is Some
            &&& id == new ==> frame_in(after.frames, id)->0.table is None
            &&& id != new && frame_in(store.frames, id) is Some ==> frame_in(
                after.frames,
                id,
            )->0.table == frame_in(store.frames, id)->0.table
        }),
{
    wrap_plan_holds(store, dto, plan);
    let moved = moved_children(store, plan);
    let created = with_new_frame(
        store,
        plan.doc_id,
        wrapping_frame(dto, plan.owner_id, moved, now),
    );
    reparenting_keeps(created.frames, moved, counter_of(store.counters, "frame"@), now, id);
}

/// A wrap keeps the frames of a document sound: no frame holds itself, and all have
/// ids that were given out.
pub proof fn wrap_keeps_the_frames_sound(
    store: StoreModel,
    dto: WrapBlocksInFrameDto,
    plan: WrapPlan,
    now: i64,
)
    requires
        wrap_plan(store, dto) == Ok::<WrapPlan, EditError>(plan),
        is_forest(store.frames),
        frames_given_out(store),
        frame_ids_fit(store),
        in_key_order(store.counters),
    ensures
        is_forest(wrapped(store, dto, plan, now).frames),
        frames_given_out(wrapped(store, dto, plan, now)),
{
    wrap_plan_holds(store, dto, plan);
    let new = counter_of(store.counters, "frame"@);
    let owner = plan.owner_id;
    let after = wrapped(store, dto, plan, now);
    let entries = children(store.frames, owner);
    let moved = moved_children(store, plan);
    let entry = (-(new as int)) as i64;
    let rank = rank_in(store.frames);
    ranked_is_rank(store.frames, rank);
    let ranks = |id: EntityId| -> nat
        {
            if id == new {
                2 * rank(owner)
            } else {
                2 * rank(id) + 1
            }
        };
    lookup_gives_back_what_was_set(store.counters, "frame"@, (new + 1) as u64, "frame"@);
    assert(counter_of(after.counters, "frame"@) == new + 1);
    assert forall|id: EntityId| #[trigger] after.frames.dom().contains(id) implies 0 < id < new
        + 1 by {
        wrap_moves_a_range(store, dto, plan, now, id);
    }
    assert forall|id: EntityId, k: int|
        0 <= k < children(after.frames, id).len() && #[trigger] children(after.frames, id)[k]
            < 0 implies ranks(sub_frame(children(after.frames, id)[k])) < ranks(id) && sub_frame(
        children(after.frames, id)[k],
    ) < new + 1 by {
        wrap_moves_a_range(store, dto, plan, now, id);
        if id == owner {
            if k < plan.start {
                assert(children(after.frames, id)[k] == entries[k]);
            } else if k == plan.start {
                assert(children(after.frames, id)[k] == entry);
                assert(sub_frame(entry) == new);
            } else {
                assert(children(after.frames, id)[k] == entries[k + plan.end - plan.start]);
            }
        } else if id == new {
            assert(children(after.frames, id)[k] == entries[plan.start + k]);
        } else {
            assert(children(after.frames, id)[k] == children(store.frames, id)[k]);
        }
    }
    ranked_is_rank(after.frames, ranks);
}

/// Where a plan for an unwrap comes from: the frame is there, it is no table, and
/// its parent holds it.
pub(crate) proof fn unwrap_plan_holds(store: StoreModel, dto: UnwrapFrameDto, plan: UnwrapFramePlan)
    requires
        unwrap_frame_plan(store, dto) == Ok::<UnwrapFramePlan, EditError>(plan),
        is_forest(store.frames),
        frames_given_out(store),
        frame_ids_fit(store),
    ensures
        frame_in(store.frames, plan.frame_id) is Some,
        frame_in(store.frames, plan.parent_id) is Some,
        document_in(store.documents, plan.doc_id) is Some,
        0 <= plan.at < children(store.frames, plan.parent_id).len(),
        children(store.frames, plan.parent_id)[plan.at] == -(plan.frame_id as int),
        sub_frame(children(store.frames, plan.parent_id)[plan.at]) == plan.frame_id,
        plan.frame_id != plan.parent_id,
{
    entry_is_there(children(store.frames, plan.parent_id), -(dto.frame_id as int), 0);
    ranked_is_rank(store.frames, rank_in(store.frames));
}

/// An unwrap puts the children of the frame in its place in the parent, takes the
/// frame out, and leaves the children of every other frame as they are.
pub proof fn unwrap_puts_children_in_place(
    store: StoreModel,
    dto: UnwrapFrameDto,
    plan: UnwrapFramePlan,
    now: i64,
    id: EntityId,
)
    requires
        unwrap_frame_plan(store, dto) == Ok::<UnwrapFramePlan, EditError>(plan),
        is_forest(store.frames),
        frames_given_out(store),
        frame_ids_fit(store),
    ensures
        children(frame_unwrapped(store, plan, now).frames, id) == if id == plan.parent_id {
            spliced_entries(
                children(store.frames, id),
                plan.at,
                plan.at + 1,
                children(store.frames, plan.frame_id),
            )
        } else if id == plan.frame_id {
            Seq::empty()
        } else {
            children(store.frames, id)
        },
        frame_unwrapped(store, plan, now).frames.dom() == store.frames.dom().remove(plan.frame_id),
{
    unwrap_plan_holds(store, dto, plan);
    reparenting_keeps(
        store.frames,
        children(store.frames, plan.frame_id),
        plan.parent_id,
        now,
        id,
    );
    assert(frame_unwrapped(store, plan, now).frames.dom() =~= store.frames.dom().remove(
        plan.frame_id,
    ));
}

/// What an unwrap leaves of each other frame: whether it is there, and whether it is
/// a table.
pub(crate) proof fn unwrap_keeps_other_frames(
    store: StoreModel,
    dto: UnwrapFrameDto,
    plan: UnwrapFramePlan,
    now: i64,
    id: EntityId,
)
    requires
        unwrap_frame_plan(store, dto) == Ok::<UnwrapFramePlan, EditError>(plan),
        is_forest(store.frames),
        frames_given_out(store),
        frame_ids_fit(store),
        id != plan.frame_id,
    ensures
        ({
            let after = frame_unwrapped(store, plan, now);
            &&& frame_in(after.frames, id) is Some <==> frame_in(store.frames, id) is Some
            &&& frame_in(store.frames, id) is Some ==> frame_in(after.frames, id)->0.table
                == frame_in(store.frames, id)->0.table
        }),
{
    unwrap_plan_holds(store, dto, plan);
    reparenting_keeps(
        store.frames,
        children(store.frames, plan.frame_id),
        plan.parent_id,
        now,
        id,
    );
}

/// An unwrap keeps the frames of a document sound: no frame holds itself, and all
/// have ids that were given out.
pub proof fn unwrap_keeps_the_frames_sound(
    store: StoreModel,
    dto: UnwrapFrameDto,
    plan: UnwrapFramePlan,
    now: i64,
)
    requires
        unwrap_frame_plan(store, dto) == Ok::<UnwrapFramePlan, EditError>(plan),
        is_forest(store.frames),
        frames_given_out(store),
        frame_ids_fit(store),
    ensures
        is_forest(frame_unwrapped(store, plan, now).frames),
        frames_given_out(frame_unwrapped(store, plan, now)),
{
    unwrap_plan_holds(store, dto, plan);
    let after = frame_unwrapped(store, plan, now);
    let rank = rank_in(store.frames);
    let entries = children(store.frames, plan.parent_id);
    let inner = children(store.frames, plan.frame_id);
    ranked_is_rank(store.frames, rank);
    assert forall|id: EntityId| #[trigger] after.frames.dom().contains(id) implies 0 < id
        < counter_of(after.counters, "frame"@) by {
        unwrap_puts_children_in_place(store, dto, plan, now, id);
    }
    assert forall|id: EntityId, k: int|
        0 <= k < children(after.frames, id).len() && #[trigger] children(after.frames, id)[k]
            < 0 implies rank(sub_frame(children(after.frames, id)[k])) < rank(id) && sub_frame(
        children(after.frames, id)[k],
    ) < counter_of(after.counters, "frame"@) by {
        unwrap_puts_children_in_place(store, dto, plan, now, id);
        if id == plan.parent_id {
            if k < plan.at {
                assert(children(after.frames, id)[k] == entries[k]);
            } else if k < plan.at + inner.len() {
                assert(children(after.frames, id)[k] == inner[k - plan.at]);
                assert(entries[plan.at] < 0);
            } else {
                assert(children(after.frames, id)[k] == entries[k - inner.len() + 1]);
            }
        } else {
            assert(children(after.frames, id)[k] == children(store.frames, id)[k]);
        }
    }
    ranked_is_rank(after.frames, rank);
}

/// The frames among entries have the parent that they were moved under.
proof fn reparenting_sets_the_parent(
    frames: Map<EntityId, RowModel>,
    entries: Seq<i64>,
    parent: EntityId,
    now: i64,
    k: int,
)
    requires
        0 <= k < entries.len(),
        entries[k] < 0,
        frame_in(frames, sub_frame(entries[k])) is Some,
    ensures
        frame_in(reparented(frames, entries, parent, now), sub_frame(entries[k])) is Some,
        frame_in(
            reparented(frames, entries, parent, now),
            sub_frame(entries[k]),
        )->0.parent_frame == Some(parent),
    decreases entries.len(),
{
    let rest = entries.drop_last();
    reparenting_keeps(frames, rest, parent, now, sub_frame(entries.last()));
    if k < rest.len() {
        assert(rest[k] == entries[k]);
        reparenting_sets_the_parent(frames, rest, parent, now, k);
    }
}

/// The first of the blocks among entries is the first entry, if that is a block.
proof fn first_block_first(entries: Seq<i64>)
    requires
        entries.len() > 0,
        entries[0] > 0,
    ensures
        blocks_in(entries).len() > 0,
        blocks_in(entries)[0] == entries[0],
    decreases entries.len(),
{
    let rest = entries.drop_last();
    if rest.len() > 0 {
        first_block_first(rest);
    } else {
        assert(blocks_in(rest) =~= Seq::empty());
    }
}

proof fn ids_kept(ids: Seq<EntityId>, others: Seq<EntityId>, id: EntityId)
    ensures
        ids_not_in(ids, others).contains(id) <==> ids.contains(id) && !others.contains(id),
    decreases ids.len(),
{
    if ids.len() > 0 {
        let rest = ids.drop_last();
        ids_kept(rest, others, id);
        let kept = ids_not_in(rest, others);
        contains_pushed(rest, ids.last(), id);
        contains_pushed(kept, ids.last(), id);
        assert(rest.push(ids.last()) =~= ids);
    }
}

proof fn contains_pushed(ids: Seq<EntityId>, last: EntityId, id: EntityId)
    ensures
        ids.push(last).contains(id) <==> ids.contains(id) || id == last,
{
    let all = ids.push(last);
    if ids.contains(id) {
        let k = choose|k: int| 0 <= k < ids.len() && ids[k] == id;
        assert(all[k] == id);
    }
    if id == last {
        assert(all[ids.len() as int] == id);
    }
}

proof fn ids_added(ids: Seq<EntityId>, others: Seq<EntityId>, id: EntityId)
    ensures
        with_ids(ids, others).contains(id) <==> ids.contains(id) || others.contains(id),
    decreases others.len(),
{
    if others.len() > 0 {
        let rest = others.drop_last();
        ids_added(ids, rest, id);
        contains_pushed(with_ids(ids, rest), others.last(), id);
        contains_pushed(rest, others.last(), id);
        assert(rest.push(others.last()) =~= others);
    }
}

/// What unwrapping the frame that a wrap made gives back of the rest: the answer is the
/// place that the wrap answered; the frame that held the children lists its blocks
/// again, and those that were moved, if it did not list them; and the frames among the
/// children have it as their parent.
pub proof fn unwrap_gives_back_what_wrap_took(
    store: StoreModel,
    dto: WrapBlocksInFrameDto,
    plan: WrapPlan,
    now: i64,
    later: i64,
)
    requires
        wrap_plan(store, dto) == Ok::<WrapPlan, EditError>(plan),
        is_forest(store.frames),
        frames_given_out(store),
        frame_ids_fit(store),
        in_key_order(store.counters),
        counter_of(store.counters, "frame"@) < i64::MAX,
    ensures
        ({
            let new = counter_of(store.counters, "frame"@);
            let between = wrapped(store, dto, plan, now);
            let back = UnwrapFramePlan {
                doc_id: plan.doc_id,
                frame_id: new,
                parent_id: plan.owner_id,
                at: plan.start,
            };
            let after = frame_unwrapped(between, back, later);
            let moved = moved_children(store, plan);
            let listed = frame_in(store.frames, plan.owner_id)->0.blocks;
            let relisted = frame_in(after.frames, plan.owner_id)->0.blocks;
            &&& unwrap_frame_answer(between, back).new_position == wrap_result(
                store,
                plan,
            ).new_position
            &&& forall|id: EntityId| #[trigger]
                relisted.contains(id) <==> listed.contains(id) || blocks_in(moved).contains(id)
            &&& forall|k: int|
                0 <= k < moved.len() && #[trigger] moved[k] < 0 && frame_in(
                    store.frames,
                    sub_frame(moved[k]),
                ) is Some ==> frame_in(after.frames, sub_frame(moved[k]))->0.parent_frame == Some(
                    plan.owner_id,
                )
        }),
{
    let new = counter_of(store.counters, "frame"@);
    let between = wrapped(store, dto, plan, now);
    let back = UnwrapFramePlan {
        doc_id: plan.doc_id,
        frame_id: new,
        parent_id: plan.owner_id,
        at: plan.start,
    };
    let after = frame_unwrapped(between, back, later);
    let moved = moved_children(store, plan);
    let entries = children(store.frames, plan.owner_id);
    let listed = frame_in(store.frames, plan.owner_id)->0.blocks;
    let relisted = frame_in(after.frames, plan.owner_id)->0.blocks;
    wrap_plan_holds(store, dto, plan);
    wrap_moves_a_range(store, dto, plan, now, new);
    ranked_is_rank(store.frames, rank_in(store.frames));
    assert(moved[0] == dto.start_block_id);
    crate::document_editing::frames::owner_needs_a_block(
        store.frames,
        first_frame(store, plan.doc_id)->Ok_0,
        dto.start_block_id,
    );
    first_block_first(moved);
    assert(frame_in(between.frames, plan.owner_id)->0.blocks == ids_not_in(
        listed,
        blocks_in(moved),
    ));
    assert forall|id: EntityId| #[trigger]
        relisted.contains(id) <==> listed.contains(id) || blocks_in(moved).contains(id) by {
        ids_kept(listed, blocks_in(moved), id);
        ids_added(ids_not_in(listed, blocks_in(moved)), blocks_in(moved), id);
    }
    assert forall|k: int|
        0 <= k < moved.len() && #[trigger] moved[k] < 0 && frame_in(
            store.frames,
            sub_frame(moved[k]),
        ) is Some implies frame_in(after.frames, sub_frame(moved[k]))->0.parent_frame == Some(
        plan.owner_id,
    ) by {
        let sub = sub_frame(moved[k]);
        assert(entries[plan.start + k] == moved[k]);
        assert(sub != plan.owner_id);
        assert(sub != new);
        wrap_keeps_other_frames(store, dto, plan, now, sub);
        reparenting_sets_the_parent(between.frames, moved, plan.owner_id, later, k);
    }
}

proof fn without_a_new_id(ids: Seq<EntityId>, id: EntityId)
    requires
        !ids.contains(id),
    ensures
        without_id(ids, id) == ids,
    decreases ids.len(),
{
    if ids.len() > 0 {
        let rest = ids.drop_last();
        assert(ids[ids.len() - 1] == ids.last());
        assert forall|k: int| 0 <= k < rest.len() implies rest[k] != id by {
            assert(ids[k] == rest[k]);
        }
        without_a_new_id(rest, id);
        assert(rest.push(ids.last()) =~= ids);
    }
}

/// Unwrapping the frame that a wrap made puts every child back where it was: each
/// frame has the children it had, the new frame is gone, and the document lists the
/// frames it listed.
pub proof fn unwrap_undoes_wrap(
    store: StoreModel,
    dto: WrapBlocksInFrameDto,
    plan: WrapPlan,
    now: i64,
    later: i64,
)
    requires
        wrap_plan(store, dto) == Ok::<WrapPlan, EditError>(plan),
        is_forest(store.frames),
        frames_given_out(store),
        frame_ids_fit(store),
        in_key_order(store.counters),
        counter_of(store.counters, "frame"@) < i64::MAX,
        !document_in(store.documents, plan.doc_id)->0.frames.contains(
            counter_of(store.counters, "frame"@),
        ),
    ensures
        ({
            let new = counter_of(store.counters, "frame"@);
            let between = wrapped(store, dto, plan, now);
            let back = UnwrapFramePlan {
                doc_id: plan.doc_id,
                frame_id: new,
                parent_id: plan.owner_id,
                at: plan.start,
            };
            let after = frame_unwrapped(between, back, later);
            &&& unwrap_frame_plan(between, UnwrapFrameDto { frame_id: new as i64 }) == Ok::<
                UnwrapFramePlan,
                EditError,
            >(back)
            &&& forall|id: EntityId| #[trigger]
                children(after.frames, id) == children(store.frames, id)
            &&& after.frames.dom() == store.frames.dom()
            &&& document_in(after.documents, plan.doc_id)->0.frames == document_in(
                store.documents,
                plan.doc_id,
            )->0.frames
            &&& after.blocks == store.blocks
            &&& after.text == store.text
        }),
{
    let new = counter_of(store.counters, "frame"@);
    let between = wrapped(store, dto, plan, now);
    let dto_back = UnwrapFrameDto { frame_id: new as i64 };
    let back = UnwrapFramePlan {
        doc_id: plan.doc_id,
        frame_id: new,
        parent_id: plan.owner_id,
        at: plan.start,
    };
    let entries = children(store.frames, plan.owner_id);
    let moved = moved_children(store, plan);
    wrap_plan_holds(store, dto, plan);
    wrap_keeps_the_frames_sound(store, dto, plan, now);
    wrap_moves_a_range(store, dto, plan, now, plan.owner_id);
    wrap_moves_a_range(store, dto, plan, now, new);
    lookup_gives_back_what_was_set(store.counters, "frame"@, (new + 1) as u64, "frame"@);
    let created = with_new_frame(
        store,
        plan.doc_id,
        wrapping_frame(dto, plan.owner_id, moved, now),
    );
    // The new frame is no child of a moved one, so the wrap leaves it as it was made.
    assert forall|k: int| 0 <= k < moved.len() implies !(#[trigger] moved[k] < 0 && sub_frame(
        moved[k],
    ) == new) by {
        assert(moved[k] == entries[plan.start + k]);
    }
    reparenting_keeps(created.frames, moved, new, now, new);
    let middle = children(between.frames, plan.owner_id);
    assert(middle[plan.start] == -(new as int));
    assert forall|k: int| 0 <= k < plan.start implies #[trigger] middle[k] != -(new as int) by {
        assert(middle[k] == entries[k]);
        if entries[k] == -(new as int) {
            assert(sub_frame(entries[k]) == new);
        }
    }
    entry_is_found(middle, -(new as int), 0, plan.start);
    assert(unwrap_frame_plan(between, dto_back) == Ok::<UnwrapFramePlan, EditError>(back));
    assert forall|id: EntityId| #[trigger]
        children(frame_unwrapped(between, back, later).frames, id) == children(
            store.frames,
            id,
        ) by {
        wrap_moves_a_range(store, dto, plan, now, id);
        unwrap_puts_children_in_place(between, dto_back, back, later, id);
        if id == plan.owner_id {
            assert(spliced_entries(middle, plan.start, plan.start + 1, moved) =~= entries);
        } else if id == new {
            assert(children(store.frames, id) =~= Seq::empty());
        }
    }
    unwrap_puts_children_in_place(between, dto_back, back, later, new);
    assert(frame_unwrapped(between, back, later).frames.dom() =~= store.frames.dom());
    let listed = document_in(store.documents, plan.doc_id)->0.frames;
    without_a_new_id(listed, new);
    assert(listed.push(new).drop_last() =~= listed);
}

/// Where a plan for lifting a block out comes from: its frame is there, its parent
/// holds it, and it holds the block.
pub(crate) proof fn lift_plan_holds(store: StoreModel, dto: UnwrapBlockFromFrameDto, plan: UnwrapBlockPlan)
    requires
        unwrap_block_plan(store, dto) == Ok::<UnwrapBlockPlan, EditError>(plan),
        is_forest(store.frames),
        frames_given_out(store),
        frame_ids_fit(store),
    ensures
        frame_in(store.frames, plan.owner_id) is Some,
        frame_in(store.frames, plan.parent_id) is Some,
        document_in(store.documents, plan.doc_id) is Some,
        0 <= plan.block_at < children(store.frames, plan.owner_id).len(),
        children(store.frames, plan.owner_id)[plan.block_at] == plan.block_id,
        plan.block_id == dto.block_id,
        plan.block_id > 0,
        0 <= plan.owner_at < children(store.frames, plan.parent_id).len(),
        children(store.frames, plan.parent_id)[plan.owner_at] == -(plan.owner_id as int),
        sub_frame(children(store.frames, plan.parent_id)[plan.owner_at]) == plan.owner_id,
        plan.owner_id != plan.parent_id,
{
    crate::document_editing::frames::owner_needs_a_block(
        store.frames,
        first_frame(store, plan.doc_id)->Ok_0,
        dto.block_id,
    );
    entry_is_there(children(store.frames, plan.owner_id), dto.block_id as int, 0);
    entry_is_there(children(store.frames, plan.parent_id), -(plan.owner_id as int), 0);
    ranked_is_rank(store.frames, rank_in(store.frames));
}

/// Lifting a block out cuts its frame at the block: what stood before it stays, what
/// stood behind it goes to a new frame, and the parent holds the block between the
/// two. The children of every other frame stay as they are.
pub proof fn lift_cuts_the_frame(
    store: StoreModel,
    dto: UnwrapBlockFromFrameDto,
    plan: UnwrapBlockPlan,
    now: i64,
    id: EntityId,
)
    requires
        unwrap_block_plan(store, dto) == Ok::<UnwrapBlockPlan, EditError>(plan),
        is_forest(store.frames),
        frames_given_out(store),
        frame_ids_fit(store),
    ensures
        ({
            let new = counter_of(store.counters, "frame"@);
            let held = children(store.frames, plan.owner_id);
            let behind = held.skip(plan.block_at + 1);
            let after = block_unwrapped(store, plan, now);
            &&& children(after.frames, id) == if id == plan.parent_id {
                spliced_entries(
                    children(store.frames, id),
                    plan.owner_at,
                    plan.owner_at + 1,
                    lifted_entries(store, plan),
                )
            } else if id == plan.owner_id {
                held.take(plan.block_at)
            } else if id == new && behind.len() > 0 {
                behind
            } else {
                children(store.frames, id)
            }
            &&& after.frames.dom().contains(id) ==> store.frames.dom().contains(id) || id == new
                && behind.len() > 0
        }),
{
    lift_plan_holds(store, dto, plan);
    let new = counter_of(store.counters, "frame"@);
    let owner = frame_in(store.frames, plan.owner_id)->0;
    let held = children(store.frames, plan.owner_id);
    let behind = held.skip(plan.block_at + 1);
    if behind.len() > 0 {
        let created = with_new_frame(
            store,
            plan.doc_id,
            sibling_frame(owner, plan.parent_id, behind, now),
        );
        reparenting_keeps(created.frames, behind, new, now, id);
    }
    if plan.block_at == 0 {
        assert(held.take(0) =~= Seq::empty());
    }
}

/// What lifting a block out leaves of each frame: whether it is there, and whether
/// it is a table. The new frame is none.
pub(crate) proof fn lift_keeps_other_frames(
    store: StoreModel,
    dto: UnwrapBlockFromFrameDto,
    plan: UnwrapBlockPlan,
    now: i64,
    id: EntityId,
)
    requires
        unwrap_block_plan(store, dto) == Ok::<UnwrapBlockPlan, EditError>(plan),
        is_forest(store.frames),
        frames_given_out(store),
        frame_ids_fit(store),
    ensures
        ({
            let new = counter_of(store.counters, "frame"@);
            let held = children(store.frames, plan.owner_id);
            let splits = plan.block_at + 1 < held.len();
            let after = block_unwrapped(store, plan, now);
            &&& frame_in(after.frames, id) is Some <==> if id == plan.owner_id {
                plan.block_at > 0
            } else {
                id == new && splits || frame_in(store.frames, id) is Some
            }
            &&& id == new && splits || id == plan.owner_id ==> frame_in(after.frames, id) is Some
                ==> frame_in(after.frames, id)->0.table is None
            &&& id != new && id != plan.owner_id && frame_in(store.frames, id) is Some ==> frame_in(
                after.frames,
                id,
            )->0.table == frame_in(store.frames, id)->0.table
        }),
{
    lift_plan_holds(store, dto, plan);
    let owner = frame_in(store.frames, plan.owner_id)->0;
    let tail = owner.child_order.skip(plan.block_at + 1);
    if tail.len() > 0 {
        let created = with_new_frame(
            store,
            plan.doc_id,
            sibling_frame(owner, plan.parent_id, tail, now),
        );
        reparenting_keeps(created.frames, tail, counter_of(store.counters, "frame"@), now, id);
    }
}

/// Lifting a block out keeps the frames of a document sound: no frame holds itself,
/// and all have ids that were given out.
pub proof fn lift_keeps_the_frames_sound(
    store: StoreModel,
    dto: UnwrapBlockFromFrameDto,
    plan: UnwrapBlockPlan,
    now: i64,
)
    requires
        unwrap_block_plan(store, dto) == Ok::<UnwrapBlockPlan, EditError>(plan),
        is_forest(store.frames),
        frames_given_out(store),
        frame_ids_fit(store),
        in_key_order(store.counters),
    ensures
        is_forest(block_unwrapped(store, plan, now).frames),
        frames_given_out(block_unwrapped(store, plan, now)),
{
    lift_plan_holds(store, dto, plan);
    let new = counter_of(store.counters, "frame"@);
    let after = block_unwrapped(store, plan, now);
    let held = children(store.frames, plan.owner_id);
    let behind = held.skip(plan.block_at + 1);
    let outer = children(store.frames, plan.parent_id);
    let lifted = lifted_entries(store, plan);
    let rank = rank_in(store.frames);
    ranked_is_rank(store.frames, rank);
    let ranks = |id: EntityId| -> nat
        {
            if id == new {
                2 * rank(plan.owner_id)
            } else {
                2 * rank(id) + 1
            }
        };
    lookup_gives_back_what_was_set(store.counters, "frame"@, (new + 1) as u64, "frame"@);
    let next = counter_of(after.counters, "frame"@);
    assert(next == if behind.len() > 0 {
        new + 1
    } else {
        new as int
    });
    assert(rank(plan.owner_id) < rank(plan.parent_id)) by {
        assert(outer[plan.owner_at] < 0);
    }
    assert forall|id: EntityId| #[trigger] after.frames.dom().contains(id) implies 0 < id < next by {
        lift_cuts_the_frame(store, dto, plan, now, id);
    }
    assert forall|id: EntityId, k: int|
        0 <= k < children(after.frames, id).len() && #[trigger] children(after.frames, id)[k]
            < 0 implies ranks(sub_frame(children(after.frames, id)[k])) < ranks(id) && sub_frame(
        children(after.frames, id)[k],
    ) < next by {
        lift_cuts_the_frame(store, dto, plan, now, id);
        if id == plan.parent_id {
            if k < plan.owner_at {
                assert(children(after.frames, id)[k] == outer[k]);
            } else if k < plan.owner_at + lifted.len() {
                let entry = lifted[k - plan.owner_at];
                assert(children(after.frames, id)[k] == entry);
                assert(entry == -(plan.owner_id as int) || entry == -(new as int) && behind.len()
                    > 0);
                assert(sub_frame(entry) == plan.owner_id || sub_frame(entry) == new);
            } else {
                assert(children(after.frames, id)[k] == outer[k - lifted.len() + 1]);
            }
        } else if id == plan.owner_id {
            assert(children(after.frames, id)[k] == held[k]);
        } else if id == new && behind.len() > 0 {
            assert(children(after.frames, id)[k] == held[plan.block_at + 1 + k]);
        } else {
            assert(children(after.frames, id)[k] == children(store.frames, id)[k]);
        }
    }
    ranked_is_rank(after.frames, ranks);
}

// ─── Undo and redo ───────────────────────────────────────────────────

/// An undo gives back everything but the ids, and a second one changes nothing.
pub proof fn undo_gives_the_store_back(before: StoreModel, edited: StoreModel)
    ensures
        restored(before, edited) == (StoreModel { counters: edited.counters, ..before }),
        restored(before, restored(before, edited)) == restored(before, edited),
        edited.counters == before.counters ==> restored(before, edited) == before,
{
}

/// After an undo of a wrap, the same wrap can be done again.
pub proof fn an_undone_wrap_can_be_redone(
    store: StoreModel,
    dto: WrapBlocksInFrameDto,
    plan: WrapPlan,
    now: i64,
)
    requires
        wrap_plan(store, dto) == Ok::<WrapPlan, EditError>(plan),
    ensures
        wrap_plan(restored(store, wrapped(store, dto, plan, now)), dto) == Ok::<
            WrapPlan,
            EditError,
        >(plan),
{
}

/// Undoing the unwrap of a frame gives the very same store back, so the frame can be
/// unwrapped again.
pub proof fn an_undone_unwrap_leaves_no_trace(store: StoreModel, plan: UnwrapFramePlan, now: i64)
    ensures
        restored(store, frame_unwrapped(store, plan, now)) == store,
{
}

/// After a lifted block was put back by an undo, it can be lifted again.
pub proof fn an_undone_lift_can_be_redone(
    store: StoreModel,
    dto: UnwrapBlockFromFrameDto,
    plan: UnwrapBlockPlan,
    now: i64,
)
    requires
        unwrap_block_plan(store, dto) == Ok::<UnwrapBlockPlan, EditError>(plan),
    ensures
        unwrap_block_plan(restored(store, block_unwrapped(store, plan, now)), dto) == Ok::<
            UnwrapBlockPlan,
            EditError,
        >(plan),
{
}

/// Undoing the insertion of an image gives the very same store back.
pub proof fn an_undone_image_leaves_no_trace(
    store: StoreModel,
    dto: InsertImageModel,
    plan: InsertPlan,
    now: i64,
)
    ensures
        restored(store, image_inserted(store, dto, plan, now)) == store,
{
}

} // verus!
