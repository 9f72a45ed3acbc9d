//! Whether a store is such that it can be edited.
//!
//! The edits ask of a store that no frame holds itself, that the ids of frames leave room
//! for a sign, and that the text holds the blocks. Each function here tells one of these.
use std::collections::HashSet;

use vstd::prelude::*;

use crate::database::block_offset_index::stretches_fit;
use crate::database::rope_store::{text_is_indexed, text_len, RopeStore, StoreModel};
use crate::database::rows::{find_frame, frame_in, row_ids};
use crate::document_editing::block_order::{
    cell_frames, flow_rank, is_flow, is_flow_rank, table_cell_frames,
};
use crate::document_editing::frames::{
    child, child_count, frame_ids_fit, is_forest, is_rank, rank_in, sub_frame, sub_frame_id,
};
use crate::entities::EntityId;
use crate::models::group_deep_view;

verus! {

broadcast use {group_deep_view, vstd::std_specs::hash::group_hash_axioms};

/// Whether a frame has another among its children.
spec fn has_child(store: StoreModel, id: EntityId, sub: EntityId) -> bool {
    exists|k: int|
        0 <= k < child_count(store.frames, id) && #[trigger] child(store.frames, id, k) < 0
            && sub_frame(child(store.frames, id, k)) == sub
}

/// Whether a frame has another among the cells of its table.
spec fn has_cell(store: StoreModel, id: EntityId, sub: EntityId) -> bool {
    &&& frame_in(store.frames, id) is Some
    &&& frame_in(store.frames, id)->0.table is Some
    &&& cell_frames(store, frame_in(store.frames, id)->0.table->0).contains(sub)
}

/// Whether a frame holds another, as a child, or as a cell where cells count.
spec fn holds(store: StoreModel, cells: bool, id: EntityId, sub: EntityId) -> bool {
    has_child(store, id, sub) || (cells && has_cell(store, id, sub))
}

/// Whether every frame ranks above the frames it holds.
spec fn ranks(store: StoreModel, cells: bool, rank: spec_fn(EntityId) -> nat) -> bool {
    forall|id: EntityId, sub: EntityId|
        #[trigger] holds(store, cells, id, sub) ==> rank(sub) < rank(id)
}

proof fn ranks_are_ranks(store: StoreModel, rank: spec_fn(EntityId) -> nat)
    ensures
        ranks(store, false, rank) <==> is_rank(store.frames, rank),
        ranks(store, true, rank) <==> is_flow_rank(store, rank),
{
    if ranks(store, false, rank) || ranks(store, true, rank) {
        let cells = ranks(store, true, rank);
        assert forall|id: EntityId, k: int|
            0 <= k < child_count(store.frames, id) && #[trigger] child(store.frames, id, k)
                < 0 implies rank(sub_frame(child(store.frames, id, k))) < rank(id) by {
            assert(holds(store, cells, id, sub_frame(child(store.frames, id, k))));
        }
    }
    if ranks(store, true, rank) {
        assert forall|id: EntityId, k: int|
            frame_in(store.frames, id) is Some && frame_in(store.frames, id)->0.table is Some && 0
                <= k < cell_frames(store, frame_in(store.frames, id)->0.table->0).len() implies rank(
            #[trigger] cell_frames(store, frame_in(store.frames, id)->0.table->0)[k],
        ) < rank(id) by {
            let sub = cell_frames(store, frame_in(store.frames, id)->0.table->0)[k];
            assert(holds(store, true, id, sub));
        }
    }
}

proof fn ranked_is_sound(store: StoreModel)
    ensures
        (exists|rank: spec_fn(EntityId) -> nat| ranks(store, false, rank)) <==> is_forest(
            store.frames,
        ),
        (exists|rank: spec_fn(EntityId) -> nat| ranks(store, true, rank)) <==> is_flow(store),
{
    if exists|rank: spec_fn(EntityId) -> nat| ranks(store, false, rank) {
        ranks_are_ranks(
            store,
            choose|rank: spec_fn(EntityId) -> nat| ranks(store, false, rank),
        );
    }
    if exists|rank: spec_fn(EntityId) -> nat| ranks(store, true, rank) {
        ranks_are_ranks(store, choose|rank: spec_fn(EntityId) -> nat| ranks(store, true, rank));
    }
    if is_forest(store.frames) {
        ranks_are_ranks(store, rank_in(store.frames));
    }
    if is_flow(store) {
        ranks_are_ranks(store, flow_rank(store));
    }
}

/// Whether a frame is there and was not passed yet.
spec fn is_left(store: StoreModel, passed: Set<EntityId>, id: EntityId) -> bool {
    frame_in(store.frames, id) is Some && !passed.contains(id)
}

/// Where every frame that is left holds one that is left, no frame that ranks is left.
proof fn nothing_is_left(
    store: StoreModel,
    cells: bool,
    passed: Set<EntityId>,
    rank: spec_fn(EntityId) -> nat,
    id: EntityId,
)
    requires
        ranks(store, cells, rank),
        forall|x: EntityId| #[trigger]
            is_left(store, passed, x) ==> exists|sub: EntityId| #[trigger]
                holds(store, cells, x, sub) && is_left(store, passed, sub),
    ensures
        !is_left(store, passed, id),
    decreases rank(id),
{
    if is_left(store, passed, id) {
        let sub = choose|sub: EntityId| #[trigger]
            holds(store, cells, id, sub) && is_left(store, passed, sub);
        nothing_is_left(store, cells, passed, rank, sub);
    }
}

/// How many of some ids are not in a set.
spec fn count_left(ids: Seq<EntityId>, passed: Set<EntityId>) -> nat
    decreases ids.len(),
{
    if ids.len() == 0 {
        0
    } else {
        count_left(ids.drop_last(), passed) + if passed.contains(ids.last()) {
            0nat
        } else {
            1nat
        }
    }
}

proof fn one_less_is_left(ids: Seq<EntityId>, passed: Set<EntityId>, id: EntityId)
    ensures
        count_left(ids, passed.insert(id)) <= count_left(ids, passed),
        ids.contains(id) && !passed.contains(id) ==> count_left(ids, passed.insert(id))
            < count_left(ids, passed),
    decreases ids.len(),
{
    if ids.len() > 0 {
        one_less_is_left(ids.drop_last(), passed, id);
        if ids.contains(id) && ids.last() != id {
            let i = choose|i: int| 0 <= i < ids.len() && ids[i] == id;
            assert(ids.drop_last()[i] == id);
        }
    }
}

/// Whether every frame that is left holds one that is left.
#[verifier::opaque]
spec fn is_stuck(
    store: StoreModel,
    cells: bool,
    passed: Set<EntityId>,
    ids: Seq<EntityId>,
) -> bool {
    forall|k: int|
        0 <= k < ids.len() && !passed.contains(#[trigger] ids[k]) ==> exists|sub: EntityId|
            #[trigger] holds(store, cells, ids[k], sub) && is_left(store, passed, sub)
}

/// Where every frame that is left holds one that is left, and one is, nothing ranks.
proof fn nothing_ranks(
    store: StoreModel,
    cells: bool,
    passed: Set<EntityId>,
    ids: Seq<EntityId>,
    id: EntityId,
)
    requires
        is_stuck(store, cells, passed, ids),
        forall|x: EntityId| ids.contains(x) <==> store.frames.dom().contains(x),
        is_left(store, passed, id),
    ensures
        forall|r: spec_fn(EntityId) -> nat| !ranks(store, cells, r),
{
    reveal(is_stuck);
    assert forall|r: spec_fn(EntityId) -> nat| !ranks(store, cells, r) by {
        if ranks(store, cells, r) {
            assert forall|x: EntityId| #[trigger] is_left(store, passed, x) implies exists|
                sub: EntityId,
            | #[trigger]
                holds(store, cells, x, sub) && is_left(store, passed, sub) by {
                assert(ids.contains(x));
                let k = choose|k: int| 0 <= k < ids.len() && ids[k] == x;
                assert(!passed.contains(ids[k]));
            }
            nothing_is_left(store, cells, passed, r, id);
        }
    }
}

/// Whether a frame holds none that is left.
fn holds_nothing_left(
    store: &RopeStore,
    cells: bool,
    passed: &HashSet<EntityId>,
    id: EntityId,
) -> (free: bool)
    ensures
        free <==> forall|sub: EntityId| #[trigger]
            holds(store.deep_view(), cells, id, sub) ==> !is_left(
                store.deep_view(),
                passed@,
                sub,
            ),
{
    let ghost model = store.deep_view();
    let frame = match find_frame(&store.frames, id) {
        Some(frame) => frame,
        None => return true,
    };
    let count: usize = frame.child_order.len();
    for i in 0..count
        invariant
            model == store.deep_view(),
            frame_in(model.frames, id) == Some(frame.deep_view()),
            count == frame.child_order@.len(),
            forall|k: int|
                0 <= k < i && #[trigger] child(model.frames, id, k) < 0 ==> !is_left(
                    model,
                    passed@,
                    sub_frame(child(model.frames, id, k)),
                ),
    {
        let entry: i64 = frame.child_order[i];
        assert(child(model.frames, id, i as int) == entry);
        if entry < 0 {
            let sub: EntityId = sub_frame_id(entry);
            if find_frame(&store.frames, sub).is_some() && !passed.contains(&sub) {
                assert(holds(model, cells, id, sub));
                return false;
            }
        }
    }
    if cells {
        if let Some(table) = frame.table {
            let held = table_cell_frames(store, table);
            let len: usize = held.len();
            for i in 0..len
                invariant
                    cells,
                    model == store.deep_view(),
                    frame_in(model.frames, id) == Some(frame.deep_view()),
                    frame.table == Some(table),
                    held@ == cell_frames(model, table),
                    len == held@.len(),
                    forall|k: int| 0 <= k < i ==> !is_left(model, passed@, #[trigger] held@[k]),
            {
                let sub: EntityId = held[i];
                if find_frame(&store.frames, sub).is_some() && !passed.contains(&sub) {
                    assert(held@[i as int] == sub);
                    assert(has_cell(model, id, sub));
                    assert(holds(model, cells, id, sub));
                    return false;
                }
            }
        }
    }
    true
}

/// Passes the frames that hold none that is left, over and over.
fn is_ranked(store: &RopeStore, cells: bool) -> (ranked: bool)
    ensures
        ranked <==> exists|rank: spec_fn(EntityId) -> nat| ranks(store.deep_view(), cells, rank),
{
    let ghost model = store.deep_view();
    let ids = row_ids(&store.frames);
    let len: usize = ids.len();
    let mut passed: HashSet<EntityId> = HashSet::new();
    let ghost mut rank: Map<EntityId, nat> = Map::empty();
    let ghost mut top: nat = 0;
    let mut moved = true;
    while moved
        invariant
            model == store.deep_view(),
            len == ids@.len(),
            forall|id: EntityId| ids@.contains(id) <==> model.frames.dom().contains(id),
            rank.dom() == passed@,
            forall|id: EntityId| #[trigger] rank.dom().contains(id) ==> 0 < rank[id] <= top,
            forall|id: EntityId, sub: EntityId|
                rank.dom().contains(id) && #[trigger] holds(model, cells, id, sub) && frame_in(
                    model.frames,
                    sub,
                ) is Some ==> rank.dom().contains(sub) && rank[sub] < rank[id],
            !moved ==> forall|i: int|
                0 <= i < len && !passed@.contains(#[trigger] ids@[i]) ==> exists|sub: EntityId|
                    #[trigger] holds(model, cells, ids@[i], sub) && is_left(model, passed@, sub),
        decreases count_left(ids@, passed@), moved as nat,
    {
        let ghost before = passed@;
        moved = false;
        for i in 0..len
            invariant
                model == store.deep_view(),
                len == ids@.len(),
                rank.dom() == passed@,
                forall|id: EntityId| #[trigger] rank.dom().contains(id) ==> 0 < rank[id] <= top,
                forall|id: EntityId, sub: EntityId|
                    rank.dom().contains(id) && #[trigger] holds(model, cells, id, sub) && frame_in(
                        model.frames,
                        sub,
                    ) is Some ==> rank.dom().contains(sub) && rank[sub] < rank[id],
                !moved ==> passed@ == before,
                moved ==> count_left(ids@, passed@) < count_left(ids@, before),
                !moved ==> forall|k: int|
                    0 <= k < i && !passed@.contains(#[trigger] ids@[k]) ==> exists|sub: EntityId|
                        #[trigger] holds(model, cells, ids@[k], sub) && is_left(
                            model,
                            passed@,
                            sub,
                        ),
        {
            let id: EntityId = ids[i];
            if !passed.contains(&id) && holds_nothing_left(store, cells, &passed, id) {
                proof {
                    assert(ids@.contains(id)) by {
                        assert(ids@[i as int] == id);
                    }
                    one_less_is_left(ids@, passed@, id);
                    top = top + 1;
                    rank = rank.insert(id, top);
                }
                passed.insert(id);
                moved = true;
                assert(rank.dom() =~= passed@);
            }
        }
    }
    assert(is_stuck(model, cells, passed@, ids@)) by {
        reveal(is_stuck);
    }
    for i in 0..len
        invariant
            model == store.deep_view(),
            len == ids@.len(),
            is_stuck(model, cells, passed@, ids@),
            forall|k: int| 0 <= k < i ==> !is_left(model, passed@, #[trigger] ids@[k]),
            forall|id: EntityId| ids@.contains(id) <==> model.frames.dom().contains(id),
    {
        let id: EntityId = ids[i];
        if find_frame(&store.frames, id).is_some() && !passed.contains(&id) {
            proof {
                assert(is_left(model, passed@, id));
                nothing_ranks(model, cells, passed@, ids@, id);
            }
            return false;
        }
    }
    proof {
        let r = |id: EntityId|
            if frame_in(model.frames, id) is Some && rank.dom().contains(id) {
                rank[id]
            } else {
                0nat
            };
        assert forall|id: EntityId, sub: EntityId| #[trigger]
            holds(model, cells, id, sub) implies r(sub) < r(id) by {
            assert(frame_in(model.frames, id) is Some);
            assert(ids@.contains(id));
            let k = choose|k: int| 0 <= k < ids@.len() && ids@[k] == id;
            assert(!is_left(model, passed@, ids@[k]));
        }
        assert(ranks(model, cells, r));
    }
    true
}

/// Whether no frame holds itself, at any depth.
pub fn frames_are_sound(store: &RopeStore) -> (sound: bool)
    ensures
        sound == is_forest(store.deep_view().frames),
{
    proof {
        ranked_is_sound(store.deep_view());
    }
    is_ranked(store, false)
}

/// Whether no frame holds itself, at any depth, as a child or as a cell.
pub fn flow_is_sound(store: &RopeStore) -> (sound: bool)
    ensures
        sound == is_flow(store.deep_view()),
{
    proof {
        ranked_is_sound(store.deep_view());
    }
    is_ranked(store, true)
}

/// Whether the ids of the frames, and the next one, leave room for a sign.
pub fn frame_ids_are_sound(store: &RopeStore) -> (sound: bool)
    ensures
        sound == frame_ids_fit(store.deep_view()),
{
    let next: EntityId = match store.counters.get("frame") {
        Some(id) => *id,
        None => 1,
    };
    if next > i64::MAX as u64 {
        return false;
    }
    let ids = row_ids(&store.frames);
    for i in 0..ids.len()
        invariant
            forall|id: EntityId|
                ids@.contains(id) <==> store.deep_view().frames.dom().contains(id),
            forall|k: int| 0 <= k < i ==> #[trigger] ids@[k] <= i64::MAX,
    {
        if ids[i] > i64::MAX as u64 {
            assert(ids@.contains(ids@[i as int]));
            return false;
        }
    }
    assert forall|id: EntityId| #[trigger]
        store.deep_view().frames.dom().contains(id) implies id <= i64::MAX by {
        assert(ids@.contains(id));
        let k = choose|k: int| 0 <= k < ids@.len() && ids@[k] == id;
        assert(ids@[k] <= i64::MAX);
    }
    true
}

/// Whether the text holds the blocks that it is said to hold, none over another.
pub fn text_is_sound(store: &RopeStore) -> (sound: bool)
    ensures
        sound == text_is_indexed(store.deep_view()),
{
    let ghost entries = store.deep_view().block_offsets;
    let len: usize = text_len(&store.rope);
    let count: usize = store.block_offsets.entries.len();
    let mut end: usize = 0;
    for i in 0..count
        invariant
            entries == store.deep_view().block_offsets,
            entries == store.block_offsets.entries@,
            count == entries.len(),
            len == store.deep_view().text.len(),
            end <= len,
            i == 0 ==> end == 0,
            i > 0 ==> end == entries[i - 1].start + entries[i - 1].len,
            forall|k: int| 0 <= k < i ==> (#[trigger] entries[k]).start + entries[k].len <= end,
            forall|k: int, m: int|
                0 <= k < m < i ==> (#[trigger] entries[k]).start + entries[k].len <= (
                #[trigger] entries[m]).start,
    {
        let entry = store.block_offsets.entries[i];
        assert(entries[i as int] == entry);
        if entry.start < end || entry.len > len || entry.start > len - entry.len {
            proof {
                if entry.start < end {
                    assert(entries[i - 1].start + entries[i - 1].len > entries[i as int].start);
                } else {
                    assert(entries[i as int].start + entries[i as int].len > len);
                }
                assert(!stretches_fit(entries, len as int));
            }
            return false;
        }
        end = entry.start + entry.len;
    }
    true
}

} // verus!
