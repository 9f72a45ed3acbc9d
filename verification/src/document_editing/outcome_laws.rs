//! What the edits of frames leave behind, row by row and field by field, stated over the
//! request and the store before it.
use vstd::prelude::*;

use crate::database::rope_store::{counter_of, StoreModel};
use crate::database::rows::{block_in, document_in, frame_in, RowModel};
use crate::document_editing::edit_error::EditError;
use crate::document_editing::edit_laws::{
    children, frames_given_out, lift_plan_holds, unwrap_plan_holds, wrap_moves_a_range,
    wrap_plan_holds,
};
use crate::document_editing::frames::{
    blocks_in, child, child_count, frame_ids_fit, ids_not_in, is_forest, is_rank, owner_from,
    owner_of, rank_in, reparented, sub_frame, with_ids, with_new_frame, without_id,
};
use crate::document_editing::unwrap_block_from_frame_uc::{
    block_unwrapped, sibling_frame, tail_split_off, unwrap_block_answer, unwrap_block_plan,
    UnwrapBlockFromFrameDto, UnwrapBlockPlan,
};
use crate::document_editing::unwrap_frame_uc::{
    frame_unwrapped, unwrap_frame_answer, unwrap_frame_plan, UnwrapFrameDto, UnwrapFramePlan,
};
use crate::document_editing::wrap_blocks_in_frame_uc::{
    wrap_plan, wrap_result, wrapped, wrapping_frame, WrapBlocksInFrameDto, WrapPlan,
};
use crate::entities::{EntityId, FrameModel};
use crate::order::{in_key_order, lookup_gives_back_what_was_set};

verus! {

// ─── Entries ─────────────────────────────────────────────────────────

/// Whether a frame is among the children that entries name. Its entry is its id below
/// zero.
pub open spec fn holds_frame(entries: Seq<i64>, id: EntityId) -> bool {
    exists|k: int| 0 <= k < entries.len() && #[trigger] entries[k] == -(id as int)
}

/// The blocks that entries name, in order: the entries above zero.
pub open spec fn named_blocks(entries: Seq<i64>) -> Seq<EntityId> {
    entries.filter(|entry: i64| entry > 0).map_values(|entry: i64| entry as EntityId)
}

/// Ids without some others, in order.
pub open spec fn all_but(ids: Seq<EntityId>, others: Seq<EntityId>) -> Seq<EntityId> {
    ids.filter(|id: EntityId| !others.contains(id))
}

proof fn blocks_are_named(entries: Seq<i64>)
    ensures
        blocks_in(entries) == named_blocks(entries),
    decreases entries.len(),
{
    reveal(Seq::filter);
    let p = |entry: i64| entry > 0;
    let f = |entry: i64| entry as EntityId;
    if entries.len() > 0 {
        let rest = entries.drop_last();
        blocks_are_named(rest);
        if p(entries.last()) {
            assert(rest.filter(p).push(entries.last()).map_values(f) =~= rest.filter(p).map_values(
                f,
            ).push(entries.last() as EntityId));
        }
    } else {
        assert(named_blocks(entries) =~= Seq::empty());
    }
}

proof fn ids_are_left(ids: Seq<EntityId>, others: Seq<EntityId>)
    ensures
        ids_not_in(ids, others) == all_but(ids, others),
    decreases ids.len(),
{
    reveal(Seq::filter);
    let p = |id: EntityId| !others.contains(id);
    if ids.len() > 0 {
        ids_are_left(ids.drop_last(), others);
        assert(p(ids.last()) == !others.contains(ids.last()));
    } else {
        assert(ids_not_in(ids, others) =~= all_but(ids, others));
    }
}

proof fn one_id_is_left_out(ids: Seq<EntityId>, id: EntityId)
    ensures
        without_id(ids, id) == ids.filter(|other: EntityId| other != id),
    decreases ids.len(),
{
    reveal(Seq::filter);
    let p = |other: EntityId| other != id;
    if ids.len() > 0 {
        one_id_is_left_out(ids.drop_last(), id);
        assert(p(ids.last()) == (ids.last() != id));
    } else {
        assert(without_id(ids, id) =~= ids.filter(p));
    }
}

/// Ids that were added stand behind those that were there, each once, and all of them are
/// there.
proof fn ids_are_added(ids: Seq<EntityId>, others: Seq<EntityId>)
    ensures
        ids.len() <= with_ids(ids, others).len(),
        with_ids(ids, others).take(ids.len() as int) == ids,
        forall|id: EntityId| #[trigger]
            with_ids(ids, others).contains(id) <==> ids.contains(id) || others.contains(id),
        forall|k: int, m: int|
            ids.len() <= k < with_ids(ids, others).len() && 0 <= m < k ==> #[trigger] with_ids(
                ids,
                others,
            )[m] != #[trigger] with_ids(ids, others)[k],
    decreases others.len(),
{
    let all = with_ids(ids, others);
    if others.len() > 0 {
        let rest = others.drop_last();
        let last = others.last();
        ids_are_added(ids, rest);
        let before = with_ids(ids, rest);
        assert(all.take(ids.len() as int) =~= before.take(ids.len() as int));
        assert forall|id: EntityId| #[trigger]
            all.contains(id) <==> ids.contains(id) || others.contains(id) by {
            assert(before.contains(id) <==> ids.contains(id) || rest.contains(id));
            if rest.contains(id) {
                let k = choose|k: int| 0 <= k < rest.len() && rest[k] == id;
                assert(others[k] == id);
            }
            if others.contains(id) && !rest.contains(id) {
                let k = choose|k: int| 0 <= k < others.len() && others[k] == id;
                if k < rest.len() {
                    assert(rest[k] == id);
                }
                assert(id == last);
            }
            if before.contains(id) {
                let k = choose|k: int| 0 <= k < before.len() && before[k] == id;
                assert(all[k] == id);
            }
            if id == last {
                assert(others[others.len() - 1] == id);
                if !before.contains(last) {
                    assert(all[before.len() as int] == id);
                }
            }
            if all.contains(id) && !before.contains(id) {
                let k = choose|k: int| 0 <= k < all.len() && all[k] == id;
                if k < before.len() {
                    assert(before[k] == id);
                }
            }
        }
        if before.contains(last) {
        } else {
            assert forall|k: int, m: int|
                ids.len() <= k < all.len() && 0 <= m < k implies #[trigger] all[m]
                != #[trigger] all[k] by {
                if k < before.len() {
                    assert(before[m] != before[k]);
                } else {
                    assert(before[m] == all[m]);
                }
            }
        }
    } else {
        assert(all.take(ids.len() as int) =~= ids);
        assert forall|id: EntityId| #[trigger]
            all.contains(id) <==> ids.contains(id) || others.contains(id) by {}
    }
}

proof fn entry_of_frame(entry: i64, id: EntityId)
    requires
        0 < id,
    ensures
        entry < 0 && sub_frame(entry) == id <==> entry == -(id as int),
{
}

/// Moving frames under a parent sets the parent and the time of those among the entries,
/// and changes nothing else.
proof fn moved_frames(
    frames: Map<EntityId, RowModel>,
    entries: Seq<i64>,
    parent: EntityId,
    now: i64,
    id: EntityId,
)
    requires
        0 < id,
    ensures
        frame_in(reparented(frames, entries, parent, now), id) == match frame_in(frames, id) {
            Some(frame) => if holds_frame(entries, id) {
                Some(FrameModel { parent_frame: Some(parent), updated_at: now, ..frame })
            } else {
                Some(frame)
            },
            None => None,
        },
    decreases entries.len(),
{
    if entries.len() > 0 {
        let rest = entries.drop_last();
        let last = entries.last();
        moved_frames(frames, rest, parent, now, id);
        entry_of_frame(last, id);
        if holds_frame(rest, id) {
            let k = choose|k: int| 0 <= k < rest.len() && #[trigger] rest[k] == -(id as int);
            assert(entries[k] == -(id as int));
        }
        if last == -(id as int) {
            assert(entries[entries.len() - 1] == -(id as int));
        } else if holds_frame(entries, id) {
            let k = choose|k: int| 0 <= k < entries.len() && #[trigger] entries[k] == -(id as int);
            assert(rest[k] == -(id as int));
        }
    }
}

proof fn counter_moves_on(store: StoreModel, other: Seq<char>)
    requires
        in_key_order(store.counters),
        counter_of(store.counters, "frame"@) < u64::MAX,
    ensures
        ({
            let id = counter_of(store.counters, "frame"@);
            let after = crate::order::with_entry(store.counters, "frame"@, (id + 1) as u64);
            &&& counter_of(after, "frame"@) == id + 1
            &&& other != "frame"@ ==> counter_of(after, other) == counter_of(store.counters, other)
        }),
{
    let id = counter_of(store.counters, "frame"@);
    lookup_gives_back_what_was_set(store.counters, "frame"@, (id + 1) as u64, "frame"@);
    lookup_gives_back_what_was_set(store.counters, "frame"@, (id + 1) as u64, other);
}

/// Whether two stores are the same but for their frames, their documents and their
/// counters.
pub open spec fn same_but_for_frames(a: StoreModel, b: StoreModel) -> bool {
    &&& a.text == b.text
    &&& a.roots == b.roots
    &&& a.blocks == b.blocks
    &&& a.lists == b.lists
    &&& a.resources == b.resources
    &&& a.tables == b.tables
    &&& a.table_cells == b.table_cells
    &&& a.format_runs == b.format_runs
    &&& a.block_images == b.block_images
    &&& a.block_footnote_refs == b.block_footnote_refs
    &&& a.footnote_markers == b.footnote_markers
    &&& a.block_offsets == b.block_offsets
}

// ─── Wrapping ────────────────────────────────────────────────────────

/// A wrap makes one frame, which looks as it was asked to, side by side and field by
/// field, and which was made now. It holds the children from the first block to the last,
/// and lists the blocks among them. Its parent is the frame that held them.
pub proof fn wrap_makes_the_frame(
    store: StoreModel,
    dto: WrapBlocksInFrameDto,
    plan: WrapPlan,
    now: i64,
)
    requires
        wrap_plan(store, dto) == Ok::<WrapPlan, EditError>(plan),
        is_forest(store.frames),
        frames_given_out(store),
        frame_ids_fit(store),
    ensures
        ({
            let after = wrapped(store, dto, plan, now);
            let answer = wrap_result(store, plan);
            let held = children(store.frames, plan.owner_id);
            &&& answer.new_frame_id > 0
            &&& frame_in(store.frames, answer.new_frame_id as EntityId) is None
            &&& block_in(store.blocks, dto.start_block_id as EntityId) matches Some(block)
                && answer.new_position == block.document_position
            &&& frame_in(after.frames, answer.new_frame_id as EntityId) matches Some(frame) && {
                &&& frame.id == answer.new_frame_id
                &&& frame.created_at == now
                &&& frame.updated_at == now
                &&& frame.parent_frame == Some(plan.owner_id)
                &&& frame.table is None
                &&& frame.child_order.len() > 0
                &&& frame.child_order[0] == dto.start_block_id
                &&& frame.child_order.last() == dto.end_block_id
                &&& 0 <= plan.start
                &&& plan.start + frame.child_order.len() <= held.len()
                &&& frame.child_order == held.subrange(
                    plan.start,
                    plan.start + frame.child_order.len(),
                )
                &&& frame.blocks == named_blocks(frame.child_order)
                &&& frame.format.height is None
                &&& frame.format.width is None
                &&& frame.format.top_margin == dto.top_margin
                &&& frame.format.bottom_margin == dto.bottom_margin
                &&& frame.format.left_margin == dto.left_margin
                &&& frame.format.right_margin == dto.right_margin
                &&& frame.format.padding == dto.padding
                &&& frame.format.border == dto.border
                &&& frame.format.position == dto.position
                &&& frame.format.is_blockquote == dto.is_blockquote
            }
        }),
{
    wrap_plan_holds(store, dto, plan);
    let new = counter_of(store.counters, "frame"@);
    let held = children(store.frames, plan.owner_id);
    let moved = held.subrange(plan.start, plan.end + 1);
    blocks_are_named(moved);
    let created = with_new_frame(
        store,
        plan.doc_id,
        wrapping_frame(dto, plan.owner_id, moved, now),
    );
    moved_frames(created.frames, moved, new, now, new);
    if holds_frame(moved, new) {
        let k = choose|k: int| 0 <= k < moved.len() && #[trigger] moved[k] == -(new as int);
        assert(held[plan.start + k] < 0);
        entry_of_frame(held[plan.start + k], new);
    }
    assert(!store.frames.dom().contains(new));
}

/// A wrap changes nothing but frames, the list of them, and the next id. The frame that
/// held the children has the new one in their place and lists the blocks that are left;
/// the frames that moved have the new one as their parent; every other frame is as it was.
/// The document lists the new frame behind the others.
pub proof fn wrap_changes_nothing_else(
    store: StoreModel,
    dto: WrapBlocksInFrameDto,
    plan: WrapPlan,
    now: i64,
    id: EntityId,
    entity: Seq<char>,
)
    requires
        wrap_plan(store, dto) == Ok::<WrapPlan, EditError>(plan),
        is_forest(store.frames),
        frames_given_out(store),
        frame_ids_fit(store),
        in_key_order(store.counters),
        0 < id,
    ensures
        ({
            let after = wrapped(store, dto, plan, now);
            let new = wrap_result(store, plan).new_frame_id as EntityId;
            let held = children(store.frames, plan.owner_id);
            let moved = children(after.frames, new);
            &&& same_but_for_frames(store, after)
            &&& counter_of(after.counters, "frame"@) == new + 1
            &&& entity != "frame"@ ==> counter_of(after.counters, entity) == counter_of(
                store.counters,
                entity,
            )
            &&& document_in(store.documents, plan.doc_id) matches Some(document)
                && after.documents == store.documents.insert(
                plan.doc_id,
                RowModel::Document(
                    crate::entities::DocumentModel {
                        frames: document.frames.push(new),
                        ..document
                    },
                ),
            )
            &&& frame_in(store.frames, plan.owner_id) matches Some(frame) && frame_in(
                after.frames,
                plan.owner_id,
            ) == Some(
                FrameModel {
                    child_order: held.take(plan.start).push((-(new as int)) as i64) + held.skip(
                        plan.start + moved.len(),
                    ),
                    blocks: all_but(frame.blocks, named_blocks(moved)),
                    updated_at: now,
                    ..frame
                },
            )
            &&& id != plan.owner_id && id != new ==> frame_in(after.frames, id) == match frame_in(
                store.frames,
                id,
            ) {
                Some(frame) => if holds_frame(moved, id) {
                    Some(FrameModel { parent_frame: Some(new), updated_at: now, ..frame })
                } else {
                    Some(frame)
                },
                None => None,
            }
        }),
{
    wrap_plan_holds(store, dto, plan);
    wrap_makes_the_frame(store, dto, plan, now);
    counter_moves_on(store, entity);
    let new = counter_of(store.counters, "frame"@);
    let held = children(store.frames, plan.owner_id);
    let moved = held.subrange(plan.start, plan.end + 1);
    let created = with_new_frame(
        store,
        plan.doc_id,
        wrapping_frame(dto, plan.owner_id, moved, now),
    );
    moved_frames(created.frames, moved, new, now, id);
    let after = wrapped(store, dto, plan, now);
    wrap_moves_a_range(store, dto, plan, now, new);
    assert(children(after.frames, new) =~= moved);
    let frame = frame_in(store.frames, plan.owner_id)->0;
    blocks_are_named(moved);
    ids_are_left(frame.blocks, blocks_in(moved));
    let spliced = frame_in(after.frames, plan.owner_id)->0.child_order;
    assert(spliced =~= held.take(plan.start).push((-(new as int)) as i64) + held.skip(
        plan.start + moved.len(),
    ));
}

// ─── Unwrapping ──────────────────────────────────────────────────────

/// Where the first block among entries stands.
pub open spec fn is_first_block(entries: Seq<i64>, k: int) -> bool {
    &&& 0 <= k < entries.len()
    &&& entries[k] > 0
    &&& forall|j: int| 0 <= j < k ==> #[trigger] entries[j] <= 0
}

proof fn first_block_is(entries: Seq<i64>, k: int)
    requires
        is_first_block(entries, k),
    ensures
        blocks_in(entries).len() > 0,
        blocks_in(entries)[0] == entries[k],
    decreases entries.len(),
{
    let rest = entries.drop_last();
    if k < rest.len() {
        assert(is_first_block(rest, k)) by {
            assert forall|j: int| 0 <= j < k implies #[trigger] rest[j] <= 0 by {
                assert(rest[j] == entries[j]);
            }
        }
        first_block_is(rest, k);
    } else {
        no_blocks_in(rest);
    }
}

proof fn no_blocks_in(entries: Seq<i64>)
    requires
        forall|j: int| 0 <= j < entries.len() ==> #[trigger] entries[j] <= 0,
    ensures
        blocks_in(entries).len() == 0,
    decreases entries.len(),
{
    if entries.len() > 0 {
        let rest = entries.drop_last();
        assert forall|j: int| 0 <= j < rest.len() implies #[trigger] rest[j] <= 0 by {
            assert(rest[j] == entries[j]);
        }
        no_blocks_in(rest);
        assert(entries[entries.len() - 1] <= 0);
    }
}

/// The answer of an unwrap is where the first block of the frame begins.
pub proof fn unwrap_answers_the_first_block(
    store: StoreModel,
    dto: UnwrapFrameDto,
    plan: UnwrapFramePlan,
    k: int,
)
    requires
        unwrap_frame_plan(store, dto) == Ok::<UnwrapFramePlan, EditError>(plan),
        0 < dto.frame_id,
        is_first_block(children(store.frames, dto.frame_id as EntityId), k),
    ensures
        block_in(
            store.blocks,
            children(store.frames, dto.frame_id as EntityId)[k] as EntityId,
        ) matches Some(block) ==> unwrap_frame_answer(store, plan).new_position
            == block.document_position,
{
    first_block_is(children(store.frames, dto.frame_id as EntityId), k);
}

/// An unwrap takes the frame out and puts its children in its place in its parent, which
/// lists their blocks behind its own; the frames among them have it as their parent. The
/// document does not list the frame any more. Nothing else changes.
pub proof fn unwrap_changes_nothing_else(
    store: StoreModel,
    dto: UnwrapFrameDto,
    plan: UnwrapFramePlan,
    now: i64,
    id: EntityId,
)
    requires
        unwrap_frame_plan(store, dto) == Ok::<UnwrapFramePlan, EditError>(plan),
        is_forest(store.frames),
        frames_given_out(store),
        frame_ids_fit(store),
        0 < dto.frame_id,
        0 < id,
    ensures
        ({
            let after = frame_unwrapped(store, plan, now);
            let gone = dto.frame_id as EntityId;
            let inner = children(store.frames, gone);
            let parent = frame_in(store.frames, gone)->0.parent_frame->0;
            let outer = children(store.frames, parent);
            let was = frame_in(store.frames, parent)->0;
            let now_is = frame_in(after.frames, parent)->0;
            &&& same_but_for_frames(store, after)
            &&& after.counters == store.counters
            &&& frame_in(after.frames, gone) is None
            &&& frame_in(store.frames, gone) is Some
            &&& frame_in(store.frames, gone)->0.table is None
            &&& frame_in(store.frames, gone)->0.parent_frame is Some
            &&& 0 <= plan.at < outer.len() && outer[plan.at] == -(dto.frame_id as int)
            &&& frame_in(store.frames, parent) is Some
            &&& frame_in(after.frames, parent) is Some
            &&& now_is == FrameModel {
                child_order: outer.take(plan.at) + inner + outer.skip(plan.at + 1),
                blocks: now_is.blocks,
                updated_at: now,
                ..was
            }
            &&& was.blocks.len() <= now_is.blocks.len()
            &&& now_is.blocks.take(was.blocks.len() as int) == was.blocks
            &&& forall|block: EntityId| #[trigger]
                now_is.blocks.contains(block) <==> was.blocks.contains(block) || named_blocks(
                    inner,
                ).contains(block)
            &&& id != parent && id != gone ==> frame_in(after.frames, id) == match frame_in(
                store.frames,
                id,
            ) {
                Some(frame) => if holds_frame(inner, id) {
                    Some(FrameModel { parent_frame: Some(parent), updated_at: now, ..frame })
                } else {
                    Some(frame)
                },
                None => None,
            }
            &&& document_in(store.documents, plan.doc_id) matches Some(document)
                && after.documents == store.documents.insert(
                plan.doc_id,
                RowModel::Document(
                    crate::entities::DocumentModel {
                        frames: document.frames.filter(|other: EntityId| other != gone),
                        ..document
                    },
                ),
            )
        }),
{
    unwrap_plan_holds(store, dto, plan);
    let frame = frame_in(store.frames, plan.frame_id)->0;
    let parent = frame_in(store.frames, plan.parent_id)->0;
    let after = frame_unwrapped(store, plan, now);
    moved_frames(store.frames, frame.child_order, plan.parent_id, now, id);
    ids_are_added(parent.blocks, blocks_in(frame.child_order));
    blocks_are_named(frame.child_order);
    one_id_is_left_out(document_in(store.documents, plan.doc_id)->0.frames, plan.frame_id);
    let outer = children(store.frames, plan.parent_id);
    assert(frame_in(after.frames, plan.parent_id)->0.child_order =~= outer.take(plan.at)
        + frame.child_order + outer.skip(plan.at + 1));
}

// ─── Lifting a block ─────────────────────────────────────────────────

/// What stands in the parent in place of a frame that is cut at one of its blocks: the
/// frame, if something stood before the block; the block; and a new frame, if something
/// stood behind it.
pub open spec fn cut_entries(owner: EntityId, before: int, block: i64, behind: int, new: EntityId) -> Seq<
    i64,
> {
    let head: Seq<i64> = if before > 0 {
        seq![(-(owner as int)) as i64]
    } else {
        Seq::empty()
    };
    let tail: Seq<i64> = if behind > 0 {
        seq![(-(new as int)) as i64]
    } else {
        Seq::empty()
    };
    head.push(block) + tail
}

/// Lifting a block out answers where the block begins. It cuts its frame at the block:
/// what stood before it stays, listed anew; what stood behind it goes to a new frame that
/// looks the same and has the same parent; and the parent holds the block between the two
/// and lists it.
pub proof fn lift_cuts_field_by_field(
    store: StoreModel,
    dto: UnwrapBlockFromFrameDto,
    plan: UnwrapBlockPlan,
    now: i64,
)
    requires
        unwrap_block_plan(store, dto) == Ok::<UnwrapBlockPlan, EditError>(plan),
        is_forest(store.frames),
        frames_given_out(store),
        frame_ids_fit(store),
    ensures
        ({
            let after = block_unwrapped(store, plan, now);
            let new = counter_of(store.counters, "frame"@);
            let held = children(store.frames, plan.owner_id);
            let outer = children(store.frames, plan.parent_id);
            let before = held.take(plan.block_at);
            let behind = held.skip(plan.block_at + 1);
            &&& 0 <= plan.block_at < held.len() && held[plan.block_at] == dto.block_id
            &&& 0 <= plan.owner_at < outer.len() && outer[plan.owner_at] == -(plan.owner_id as int)
            &&& block_in(store.blocks, dto.block_id as EntityId) matches Some(block)
                ==> unwrap_block_answer(store, plan).new_position == block.document_position
            &&& frame_in(store.frames, plan.owner_id) matches Some(owner) && {
                &&& owner.parent_frame == Some(plan.parent_id)
                &&& owner.table is None
                &&& frame_in(after.frames, plan.owner_id) == if before.len() > 0 {
                    Some(
                        FrameModel {
                            child_order: before,
                            blocks: named_blocks(before),
                            updated_at: now,
                            ..owner
                        },
                    )
                } else {
                    None
                }
                &&& behind.len() > 0 ==> frame_in(after.frames, new) == Some(
                    FrameModel {
                        id: new,
                        created_at: now,
                        updated_at: now,
                        parent_frame: Some(plan.parent_id),
                        blocks: named_blocks(behind),
                        child_order: behind,
                        format: owner.format,
                        table: None,
                        byte_range: (0, 0),
                    },
                )
            }
            &&& frame_in(store.frames, plan.parent_id) matches Some(was) && frame_in(
                after.frames,
                plan.parent_id,
            ) == Some(
                FrameModel {
                    child_order: outer.take(plan.owner_at) + cut_entries(
                        plan.owner_id,
                        before.len() as int,
                        dto.block_id,
                        behind.len() as int,
                        new,
                    ) + outer.skip(plan.owner_at + 1),
                    blocks: if was.blocks.contains(dto.block_id as EntityId) {
                        was.blocks
                    } else {
                        was.blocks.push(dto.block_id as EntityId)
                    },
                    updated_at: now,
                    ..was
                },
            )
        }),
{
    lift_plan_holds(store, dto, plan);
    let new = counter_of(store.counters, "frame"@);
    let owner = frame_in(store.frames, plan.owner_id)->0;
    let parent = frame_in(store.frames, plan.parent_id)->0;
    let held = children(store.frames, plan.owner_id);
    let outer = children(store.frames, plan.parent_id);
    let before = held.take(plan.block_at);
    let behind = held.skip(plan.block_at + 1);
    let after = block_unwrapped(store, plan, now);
    blocks_are_named(before);
    blocks_are_named(behind);
    let created = with_new_frame(
        store,
        plan.doc_id,
        sibling_frame(owner, plan.parent_id, behind, now),
    );
    moved_frames(created.frames, behind, new, now, new);
    if holds_frame(behind, new) {
        let k = choose|k: int| 0 <= k < behind.len() && #[trigger] behind[k] == -(new as int);
        assert(held[plan.block_at + 1 + k] < 0);
        entry_of_frame(held[plan.block_at + 1 + k], new);
    }
    assert(!store.frames.dom().contains(new));
    let one = seq![plan.block_id as EntityId];
    assert(one.drop_last() =~= Seq::empty());
    assert(with_ids(parent.blocks, one.drop_last()) == parent.blocks);
    let placed = frame_in(after.frames, plan.parent_id)->0;
    assert(placed.child_order =~= outer.take(plan.owner_at) + cut_entries(
        plan.owner_id,
        before.len() as int,
        dto.block_id,
        behind.len() as int,
        new,
    ) + outer.skip(plan.owner_at + 1));
    assert(tail_split_off(store, plan, now).frames == if behind.len() > 0 {
        reparented(created.frames, behind, new, now)
    } else {
        store.frames
    });
}

/// Lifting a block out changes nothing but frames, the list of them, and the next id if
/// there is a new frame. The frames behind the block have the new one as their parent;
/// frames other than the block's own, its parent and the new one stay as they are but for
/// that.
pub proof fn lift_changes_nothing_else(
    store: StoreModel,
    dto: UnwrapBlockFromFrameDto,
    plan: UnwrapBlockPlan,
    now: i64,
    id: EntityId,
    entity: Seq<char>,
)
    requires
        unwrap_block_plan(store, dto) == Ok::<UnwrapBlockPlan, EditError>(plan),
        is_forest(store.frames),
        frames_given_out(store),
        frame_ids_fit(store),
        in_key_order(store.counters),
        0 < id,
    ensures
        ({
            let after = block_unwrapped(store, plan, now);
            let new = counter_of(store.counters, "frame"@);
            let held = children(store.frames, plan.owner_id);
            let behind = held.skip(plan.block_at + 1);
            let listed = document_in(store.documents, plan.doc_id)->0.frames;
            let grown = if behind.len() > 0 {
                listed.push(new)
            } else {
                listed
            };
            &&& same_but_for_frames(store, after)
            &&& counter_of(after.counters, "frame"@) == if behind.len() > 0 {
                new + 1
            } else {
                new as int
            }
            &&& entity != "frame"@ ==> counter_of(after.counters, entity) == counter_of(
                store.counters,
                entity,
            )
            &&& document_in(after.documents, plan.doc_id) matches Some(document) && {
                &&& document.frames == if plan.block_at > 0 {
                    grown
                } else {
                    grown.filter(|other: EntityId| other != plan.owner_id)
                }
                &&& document_in(store.documents, plan.doc_id) matches Some(was) && document.id
                    == was.id && document.created_at == was.created_at
                    && document.character_count == was.character_count
            }
            &&& id != plan.parent_id && id != plan.owner_id && !(id == new && behind.len() > 0)
                ==> frame_in(after.frames, id) == match frame_in(store.frames, id) {
                Some(frame) => if holds_frame(behind, id) {
                    Some(FrameModel { parent_frame: Some(new), updated_at: now, ..frame })
                } else {
                    Some(frame)
                },
                None => None,
            }
        }),
{
    lift_plan_holds(store, dto, plan);
    counter_moves_on(store, entity);
    let new = counter_of(store.counters, "frame"@);
    let owner = frame_in(store.frames, plan.owner_id)->0;
    let held = children(store.frames, plan.owner_id);
    let behind = held.skip(plan.block_at + 1);
    let listed = document_in(store.documents, plan.doc_id)->0.frames;
    let created = with_new_frame(
        store,
        plan.doc_id,
        sibling_frame(owner, plan.parent_id, behind, now),
    );
    moved_frames(created.frames, behind, new, now, id);
    if behind.len() == 0 {
        assert(!holds_frame(behind, id));
    }
    one_id_is_left_out(listed, plan.owner_id);
    one_id_is_left_out(listed.push(new), plan.owner_id);
    assert(held.take(plan.block_at).len() == plan.block_at);
}

// ─── Finding a block ─────────────────────────────────────────────────

proof fn owner_holds_from(
    frames: Map<EntityId, RowModel>,
    rank: spec_fn(EntityId) -> nat,
    id: EntityId,
    target: i64,
    i: int,
)
    requires
        0 <= i,
    ensures
        owner_from(frames, rank, id, target, i) matches Ok(Some(owner)) ==> children(
            frames,
            owner,
        ).contains(target),
    decreases rank(id), child_count(frames, id) - i,
{
    if frame_in(frames, id) is Some && i < child_count(frames, id) {
        let entry = child(frames, id, i);
        assert(children(frames, id)[i] == entry);
        if entry > 0 && entry == target {
        } else if entry < 0 && rank(sub_frame(entry)) < rank(id) {
            owner_holds_from(frames, rank, sub_frame(entry), target, 0);
            owner_holds_from(frames, rank, id, target, i + 1);
        } else {
            owner_holds_from(frames, rank, id, target, i + 1);
        }
    }
}

proof fn no_owner_from(
    frames: Map<EntityId, RowModel>,
    rank: spec_fn(EntityId) -> nat,
    id: EntityId,
    target: i64,
    i: int,
    k: int,
)
    requires
        is_rank(frames, rank),
        owner_from(frames, rank, id, target, i) == Ok::<Option<EntityId>, EditError>(None),
        0 <= i <= k < child_count(frames, id),
        target > 0,
    ensures
        child(frames, id, k) != target,
        child(frames, id, k) < 0 ==> owner_from(
            frames,
            rank,
            sub_frame(child(frames, id, k)),
            target,
            0,
        ) == Ok::<Option<EntityId>, EditError>(None),
    decreases k - i,
{
    let entry = child(frames, id, i);
    assert(frame_in(frames, id) is Some);
    if i < k {
        no_owner_from(frames, rank, id, target, i + 1, k);
    }
}

/// The frame that is found for a block has the block among its children. Where none is
/// found, neither the root nor any frame among its children leads to one that has it.
pub proof fn owner_holds_the_block(
    frames: Map<EntityId, RowModel>,
    root: EntityId,
    target: i64,
    k: int,
)
    requires
        is_forest(frames),
        target > 0,
    ensures
        owner_of(frames, root, target) matches Ok(Some(owner)) ==> children(
            frames,
            owner,
        ).contains(target),
        owner_of(frames, root, target) == Ok::<Option<EntityId>, EditError>(None) ==> !children(
            frames,
            root,
        ).contains(target),
        owner_of(frames, root, target) == Ok::<Option<EntityId>, EditError>(None) && 0 <= k
            < children(frames, root).len() && children(frames, root)[k] < 0 ==> owner_of(
            frames,
            sub_frame(children(frames, root)[k]),
            target,
        ) == Ok::<Option<EntityId>, EditError>(None),
{
    let rank = rank_in(frames);
    assert(is_rank(frames, rank));
    owner_holds_from(frames, rank, root, target, 0);
    if owner_of(frames, root, target) == Ok::<Option<EntityId>, EditError>(None) {
        if 0 <= k < children(frames, root).len() {
            no_owner_from(frames, rank, root, target, 0, k);
        }
        if children(frames, root).contains(target) {
            let j = choose|j: int|
                0 <= j < children(frames, root).len() && children(frames, root)[j] == target;
            no_owner_from(frames, rank, root, target, 0, j);
        }
    }
}

} // verus!
