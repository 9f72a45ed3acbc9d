//! Frames group blocks: putting blocks into a frame or taking them out changes
//! nothing in the order of the document's blocks.
use vstd::prelude::*;

use crate::database::rope_store::{counter_of, StoreModel};
use crate::database::rows::{frame_in, RowModel};
use crate::document_editing::block_order::{
    blocks_of_frame, cell_frames, flow_blocks, flow_list, flow_rank, is_flow, is_flow_rank,
};
use crate::document_editing::edit_error::EditError;
use crate::document_editing::edit_laws::{
    children, frames_given_out, lift_cuts_the_frame, lift_keeps_other_frames, lift_plan_holds,
    unwrap_keeps_other_frames, unwrap_plan_holds,
    unwrap_puts_children_in_place, wrap_keeps_other_frames, wrap_moves_a_range, wrap_plan_holds,
};
use crate::document_editing::frames::{
    child, child_count, frame_ids_fit, is_forest, is_rank, spliced_entries, sub_frame,
};
use crate::document_editing::unwrap_block_from_frame_uc::{
    block_unwrapped, lifted_entries, unwrap_block_plan, UnwrapBlockFromFrameDto, UnwrapBlockPlan,
};
use crate::document_editing::unwrap_frame_uc::{
    frame_unwrapped, unwrap_frame_plan, UnwrapFrameDto, UnwrapFramePlan,
};
use crate::document_editing::wrap_blocks_in_frame_uc::{
    wrap_plan, wrapped, WrapBlocksInFrameDto, WrapPlan,
};
use crate::entities::{EntityId, FrameModel};

verus! {

/// One list of blocks behind another, unless there is an error.
spec fn behind(
    a: Result<Seq<EntityId>, EditError>,
    b: Result<Seq<EntityId>, EditError>,
) -> Result<Seq<EntityId>, EditError> {
    match a {
        Err(e) => Err(e),
        Ok(first) => match b {
            Err(e) => Err(e),
            Ok(second) => Ok(first + second),
        },
    }
}

/// The blocks of a frame as it stands among the children of another.
spec fn frame_flow(store: StoreModel, rank: spec_fn(EntityId) -> nat, id: EntityId) -> Result<
    Seq<EntityId>,
    EditError,
> {
    match frame_in(store.frames, id) {
        None => Err(EditError::FrameNotFound),
        Some(frame) => match frame.table {
            Some(table) => flow_list(
                store,
                rank,
                cell_frames(store, table),
                cell_frames(store, table).len() as int,
                rank(id),
            ),
            None => flow_blocks(store, rank, id, child_count(store.frames, id)),
        },
    }
}

/// The blocks that one child of a frame stands for.
spec fn entry_flow(store: StoreModel, rank: spec_fn(EntityId) -> nat, entry: i64) -> Result<
    Seq<EntityId>,
    EditError,
> {
    if entry > 0 {
        Ok(seq![entry as EntityId])
    } else if entry < 0 {
        frame_flow(store, rank, sub_frame(entry))
    } else {
        Ok(Seq::empty())
    }
}

proof fn ranks_of_flow(store: StoreModel, rank: spec_fn(EntityId) -> nat, id: EntityId, k: int)
    requires
        is_flow_rank(store, rank),
        0 <= k < children(store.frames, id).len(),
        children(store.frames, id)[k] < 0,
    ensures
        rank(sub_frame(children(store.frames, id)[k])) < rank(id),
{
    assert(child(store.frames, id, k) == children(store.frames, id)[k]);
}

/// The blocks of the first children of a frame are those of all but the last,
/// followed by those of the last.
proof fn flow_unfolds(store: StoreModel, rank: spec_fn(EntityId) -> nat, id: EntityId, n: int)
    requires
        is_flow_rank(store, rank),
        frame_in(store.frames, id) is Some,
        0 < n <= children(store.frames, id).len(),
    ensures
        flow_blocks(store, rank, id, n) == behind(
            flow_blocks(store, rank, id, n - 1),
            entry_flow(store, rank, children(store.frames, id)[n - 1]),
        ),
{
    let entry = children(store.frames, id)[n - 1];
    assert(entry == child(store.frames, id, n - 1));
    if entry < 0 {
        ranks_of_flow(store, rank, id, n - 1);
    }
    if let Ok(rest) = flow_blocks(store, rank, id, n - 1) {
        assert(rest.push(entry as EntityId) =~= rest + seq![entry as EntityId]);
        assert(rest + Seq::<EntityId>::empty() =~= rest);
    }
}

/// Whether one store is another with some children of a frame in a frame of their
/// own: in `b` the frame `new` holds the `m` children from `start` on that `owner`
/// holds in `a`, and stands in their place.
pub open spec fn encloses(
    a: StoreModel,
    b: StoreModel,
    owner: EntityId,
    start: int,
    m: int,
    new: EntityId,
) -> bool {
    let entries = children(a.frames, owner);
    let entry = (-(new as int)) as i64;
    &&& owner != new
    &&& 0 < new <= i64::MAX
    &&& 0 <= start <= start + m <= entries.len()
    &&& frame_in(a.frames, owner) is Some
    &&& frame_in(a.frames, new) is None
    &&& frame_in(b.frames, new) is Some && frame_in(b.frames, new)->0.table is None
    &&& children(b.frames, new) == entries.subrange(start, start + m)
    &&& children(b.frames, owner) == spliced_entries(entries, start, start + m, seq![entry])
    &&& forall|id: EntityId|
        id != new ==> {
            &&& #[trigger] frame_in(a.frames, id) is Some <==> frame_in(b.frames, id) is Some
            &&& frame_in(a.frames, id) is Some ==> frame_in(a.frames, id)->0.table == frame_in(
                b.frames,
                id,
            )->0.table
        }
    &&& forall|id: EntityId|
        id != new && id != owner ==> #[trigger] children(a.frames, id) == children(b.frames, id)
    &&& forall|id: EntityId, k: int|
        0 <= k < children(a.frames, id).len() && #[trigger] children(a.frames, id)[k] < 0
            ==> sub_frame(children(a.frames, id)[k]) != new
    &&& a.tables == b.tables
    &&& a.table_cells == b.table_cells
    &&& forall|table: EntityId, k: int|
        0 <= k < cell_frames(a, table).len() ==> #[trigger] cell_frames(a, table)[k] != new
}

/// Ranks by which the frames of the store with the enclosing frame are ordered.
spec fn enclosed_ranks(
    rank: spec_fn(EntityId) -> nat,
    owner: EntityId,
    new: EntityId,
) -> spec_fn(EntityId) -> nat {
    |id: EntityId| -> nat
        {
            if id == new {
                2 * rank(owner)
            } else {
                2 * rank(id) + 1
            }
        }
}

proof fn enclosed_is_flow(
    a: StoreModel,
    b: StoreModel,
    owner: EntityId,
    start: int,
    m: int,
    new: EntityId,
    rank: spec_fn(EntityId) -> nat,
)
    requires
        encloses(a, b, owner, start, m, new),
        is_flow_rank(a, rank),
    ensures
        is_flow_rank(b, enclosed_ranks(rank, owner, new)),
{
    let ranks = enclosed_ranks(rank, owner, new);
    let entries = children(a.frames, owner);
    assert forall|id: EntityId, k: int|
        0 <= k < child_count(b.frames, id) && #[trigger] child(b.frames, id, k) < 0 implies ranks(
        sub_frame(child(b.frames, id, k)),
    ) < ranks(id) by {
        let entry = children(b.frames, id)[k];
        assert(entry == child(b.frames, id, k));
        if id == owner {
            if k < start {
                assert(entry == entries[k]);
                ranks_of_flow(a, rank, owner, k);
            } else if k == start {
                assert(sub_frame(entry) == new);
            } else {
                assert(entry == entries[k + m - 1]);
                ranks_of_flow(a, rank, owner, k + m - 1);
            }
        } else if id == new {
            assert(entry == entries[start + k]);
            ranks_of_flow(a, rank, owner, start + k);
        } else {
            assert(children(a.frames, id)[k] == entry);
            ranks_of_flow(a, rank, id, k);
        }
    }
    assert forall|id: EntityId, k: int|
        frame_in(b.frames, id) is Some && frame_in(b.frames, id)->0.table is Some && 0 <= k
            < cell_frames(b, frame_in(b.frames, id)->0.table->0).len() implies ranks(
        #[trigger] cell_frames(b, frame_in(b.frames, id)->0.table->0)[k],
    ) < ranks(id) by {
        let table = frame_in(b.frames, id)->0.table->0;
        assert(id != new);
        assert(frame_in(a.frames, id) is Some);
        assert(cell_frames(a, table) == cell_frames(b, table));
        assert(cell_frames(a, table)[k] != new);
    }
}

proof fn list_flow_same(
    a: StoreModel,
    b: StoreModel,
    owner: EntityId,
    start: int,
    m: int,
    new: EntityId,
    ra: spec_fn(EntityId) -> nat,
    rb: spec_fn(EntityId) -> nat,
    table: EntityId,
    n: int,
    id: EntityId,
)
    requires
        encloses(a, b, owner, start, m, new),
        is_flow_rank(a, ra),
        is_flow_rank(b, rb),
        id != new,
        frame_in(a.frames, id) is Some,
        frame_in(a.frames, id)->0.table == Some(table),
        0 <= n <= cell_frames(a, table).len(),
    ensures
        flow_list(a, ra, cell_frames(a, table), n, ra(id)) == flow_list(
            b,
            rb,
            cell_frames(b, table),
            n,
            rb(id),
        ),
    decreases ra(id), 0int, n,
{
    assert(cell_frames(a, table) == cell_frames(b, table));
    assert(frame_in(b.frames, id) is Some);
    if n > 0 {
        list_flow_same(a, b, owner, start, m, new, ra, rb, table, n - 1, id);
        let cell = cell_frames(a, table)[n - 1];
        assert(cell != new);
        assert(ra(cell_frames(a, frame_in(a.frames, id)->0.table->0)[n - 1]) < ra(id));
        assert(rb(cell_frames(b, frame_in(b.frames, id)->0.table->0)[n - 1]) < rb(id));
        flow_same(a, b, owner, start, m, new, ra, rb, cell);
    }
}

proof fn entry_flow_same(
    a: StoreModel,
    b: StoreModel,
    owner: EntityId,
    start: int,
    m: int,
    new: EntityId,
    ra: spec_fn(EntityId) -> nat,
    rb: spec_fn(EntityId) -> nat,
    id: EntityId,
    k: int,
)
    requires
        encloses(a, b, owner, start, m, new),
        is_flow_rank(a, ra),
        is_flow_rank(b, rb),
        0 <= k < children(a.frames, id).len(),
    ensures
        entry_flow(a, ra, children(a.frames, id)[k]) == entry_flow(
            b,
            rb,
            children(a.frames, id)[k],
        ),
    decreases ra(id), 0int, 0int,
{
    let entry = children(a.frames, id)[k];
    if entry < 0 {
        let sub = sub_frame(entry);
        ranks_of_flow(a, ra, id, k);
        assert(sub != new);
        assert(frame_in(a.frames, sub) is Some <==> frame_in(b.frames, sub) is Some);
        if let Some(frame) = frame_in(a.frames, sub) {
            match frame.table {
                Some(table) => {
                    assert(cell_frames(a, table) == cell_frames(b, table));
                    let n = cell_frames(a, table).len() as int;
                    list_flow_same(a, b, owner, start, m, new, ra, rb, table, n, sub);
                },
                None => {
                    flow_same(a, b, owner, start, m, new, ra, rb, sub);
                },
            }
        }
    }
}

/// The first children of a frame that both stores agree on.
proof fn prefix_flow_same(
    a: StoreModel,
    b: StoreModel,
    owner: EntityId,
    start: int,
    m: int,
    new: EntityId,
    ra: spec_fn(EntityId) -> nat,
    rb: spec_fn(EntityId) -> nat,
    id: EntityId,
    n: int,
)
    requires
        encloses(a, b, owner, start, m, new),
        is_flow_rank(a, ra),
        is_flow_rank(b, rb),
        id != new,
        frame_in(a.frames, id) is Some,
        0 <= n <= children(a.frames, id).len(),
        id == owner ==> n <= start,
    ensures
        flow_blocks(a, ra, id, n) == flow_blocks(b, rb, id, n),
    decreases ra(id), 1int, n,
{
    assert(frame_in(b.frames, id) is Some);
    if n > 0 {
        prefix_flow_same(a, b, owner, start, m, new, ra, rb, id, n - 1);
        entry_flow_same(a, b, owner, start, m, new, ra, rb, id, n - 1);
        assert(children(a.frames, id)[n - 1] == children(b.frames, id)[n - 1]);
        flow_unfolds(a, ra, id, n);
        flow_unfolds(b, rb, id, n);
    }
}

/// The enclosed children, in the frame that held them and in their own.
proof fn enclosed_flow_same(
    a: StoreModel,
    b: StoreModel,
    owner: EntityId,
    start: int,
    m: int,
    new: EntityId,
    ra: spec_fn(EntityId) -> nat,
    rb: spec_fn(EntityId) -> nat,
    n: int,
)
    requires
        encloses(a, b, owner, start, m, new),
        is_flow_rank(a, ra),
        is_flow_rank(b, rb),
        0 <= n <= m,
    ensures
        flow_blocks(a, ra, owner, start + n) == behind(
            flow_blocks(a, ra, owner, start),
            flow_blocks(b, rb, new, n),
        ),
    decreases ra(owner), 1int, n,
{
    let first = flow_blocks(a, ra, owner, start);
    if n == 0 {
        if let Ok(blocks) = first {
            assert(blocks + Seq::<EntityId>::empty() =~= blocks);
        }
    } else {
        enclosed_flow_same(a, b, owner, start, m, new, ra, rb, n - 1);
        entry_flow_same(a, b, owner, start, m, new, ra, rb, owner, start + n - 1);
        assert(children(b.frames, new)[n - 1] == children(a.frames, owner)[start + n - 1]);
        flow_unfolds(a, ra, owner, start + n);
        flow_unfolds(b, rb, new, n);
        let entry = entry_flow(b, rb, children(b.frames, new)[n - 1]);
        let inner = flow_blocks(b, rb, new, n - 1);
        if first is Ok && inner is Ok && entry is Ok {
            assert((first->Ok_0 + inner->Ok_0) + entry->Ok_0 =~= first->Ok_0 + (inner->Ok_0
                + entry->Ok_0));
        }
        flow_errors(a, ra, owner, start);
        flow_errors(b, rb, new, n - 1);
    }
}

/// The children behind the enclosed ones.
proof fn rest_flow_same(
    a: StoreModel,
    b: StoreModel,
    owner: EntityId,
    start: int,
    m: int,
    new: EntityId,
    ra: spec_fn(EntityId) -> nat,
    rb: spec_fn(EntityId) -> nat,
    n: int,
)
    requires
        encloses(a, b, owner, start, m, new),
        is_flow_rank(a, ra),
        is_flow_rank(b, rb),
        start + m <= n <= children(a.frames, owner).len(),
    ensures
        flow_blocks(a, ra, owner, n) == flow_blocks(b, rb, owner, n - m + 1),
    decreases ra(owner), 2int, n,
{
    let entries = children(a.frames, owner);
    let spliced = children(b.frames, owner);
    assert(frame_in(b.frames, owner) is Some);
    if n == start + m {
        prefix_flow_same(a, b, owner, start, m, new, ra, rb, owner, start);
        enclosed_flow_same(a, b, owner, start, m, new, ra, rb, m);
        flow_unfolds(b, rb, owner, start + 1);
        assert(spliced[start] == -(new as int));
        assert(sub_frame(spliced[start]) == new);
    } else {
        rest_flow_same(a, b, owner, start, m, new, ra, rb, n - 1);
        entry_flow_same(a, b, owner, start, m, new, ra, rb, owner, n - 1);
        assert(spliced[n - m] == entries[n - 1]);
        flow_unfolds(a, ra, owner, n);
        flow_unfolds(b, rb, owner, n - m + 1);
    }
}

proof fn flow_same(
    a: StoreModel,
    b: StoreModel,
    owner: EntityId,
    start: int,
    m: int,
    new: EntityId,
    ra: spec_fn(EntityId) -> nat,
    rb: spec_fn(EntityId) -> nat,
    id: EntityId,
)
    requires
        encloses(a, b, owner, start, m, new),
        is_flow_rank(a, ra),
        is_flow_rank(b, rb),
        id != new,
    ensures
        flow_blocks(a, ra, id, child_count(a.frames, id)) == flow_blocks(
            b,
            rb,
            id,
            child_count(b.frames, id),
        ),
    decreases ra(id), 3int, 0int,
{
    assert(frame_in(a.frames, id) is Some <==> frame_in(b.frames, id) is Some);
    if frame_in(a.frames, id) is Some {
        let n = children(a.frames, id).len() as int;
        if id == owner {
            rest_flow_same(a, b, owner, start, m, new, ra, rb, n);
        } else {
            assert(children(a.frames, id) == children(b.frames, id));
            prefix_flow_same(a, b, owner, start, m, new, ra, rb, id, n);
        }
    }
}

/// Where the blocks of a frame cannot be told, a frame is missing.
proof fn flow_errors(store: StoreModel, rank: spec_fn(EntityId) -> nat, id: EntityId, n: int)
    ensures
        flow_blocks(store, rank, id, n) matches Err(e) ==> e == EditError::FrameNotFound,
    decreases rank(id), 1int, n,
{
    if frame_in(store.frames, id) is Some && n > 0 {
        flow_errors(store, rank, id, n - 1);
        let entry = child(store.frames, id, n - 1);
        let sub = sub_frame(entry);
        if entry < 0 && rank(sub) < rank(id) {
            flow_errors(store, rank, sub, child_count(store.frames, sub));
            if let Some(frame) = frame_in(store.frames, sub) {
                if let Some(table) = frame.table {
                    let cells = cell_frames(store, table);
                    list_errors(store, rank, cells, cells.len() as int, rank(sub));
                }
            }
        }
    }
}

proof fn list_errors(
    store: StoreModel,
    rank: spec_fn(EntityId) -> nat,
    ids: Seq<EntityId>,
    n: int,
    bound: nat,
)
    ensures
        flow_list(store, rank, ids, n, bound) matches Err(e) ==> e == EditError::FrameNotFound,
    decreases bound, 0int, n,
{
    if n > 0 {
        list_errors(store, rank, ids, n - 1, bound);
        if rank(ids[n - 1]) < bound {
            flow_errors(store, rank, ids[n - 1], child_count(store.frames, ids[n - 1]));
        }
    }
}

proof fn opened_is_flow(
    a: StoreModel,
    b: StoreModel,
    owner: EntityId,
    start: int,
    m: int,
    new: EntityId,
    rank: spec_fn(EntityId) -> nat,
)
    requires
        encloses(a, b, owner, start, m, new),
        is_flow_rank(b, rank),
    ensures
        is_flow_rank(a, rank),
{
    let entries = children(a.frames, owner);
    let spliced = children(b.frames, owner);
    assert(spliced[start] == -(new as int));
    assert(sub_frame(spliced[start]) == new);
    ranks_of_flow(b, rank, owner, start);
    assert forall|id: EntityId, k: int|
        0 <= k < child_count(a.frames, id) && #[trigger] child(a.frames, id, k) < 0 implies rank(
        sub_frame(child(a.frames, id, k)),
    ) < rank(id) by {
        let entry = children(a.frames, id)[k];
        assert(entry == child(a.frames, id, k));
        if id == owner {
            if k < start {
                assert(spliced[k] == entry);
                ranks_of_flow(b, rank, owner, k);
            } else if k < start + m {
                assert(children(b.frames, new)[k - start] == entry);
                ranks_of_flow(b, rank, new, k - start);
            } else {
                assert(spliced[k - m + 1] == entry);
                ranks_of_flow(b, rank, owner, k - m + 1);
            }
        } else {
            assert(id != new);
            assert(children(b.frames, id)[k] == entry);
            ranks_of_flow(b, rank, id, k);
        }
    }
    assert forall|id: EntityId, k: int|
        frame_in(a.frames, id) is Some && frame_in(a.frames, id)->0.table is Some && 0 <= k
            < cell_frames(a, frame_in(a.frames, id)->0.table->0).len() implies rank(
        #[trigger] cell_frames(a, frame_in(a.frames, id)->0.table->0)[k],
    ) < rank(id) by {
        let table = frame_in(a.frames, id)->0.table->0;
        assert(id != new);
        assert(frame_in(b.frames, id) is Some);
        assert(cell_frames(b, frame_in(b.frames, id)->0.table->0)[k] == cell_frames(a, table)[k]);
    }
}

/// Putting children of a frame into a frame of their own, or taking them out of it,
/// leaves the blocks of every other frame, in the order of the flow, as they are.
pub proof fn enclosing_keeps_the_order(
    a: StoreModel,
    b: StoreModel,
    owner: EntityId,
    start: int,
    m: int,
    new: EntityId,
    id: EntityId,
)
    requires
        encloses(a, b, owner, start, m, new),
        is_flow(a) || is_flow(b),
        id != new,
    ensures
        is_flow(a),
        is_flow(b),
        blocks_of_frame(a, id) == blocks_of_frame(b, id),
{
    if is_flow(a) {
        enclosed_is_flow(a, b, owner, start, m, new, flow_rank(a));
    } else {
        opened_is_flow(a, b, owner, start, m, new, flow_rank(b));
    }
    flow_same(a, b, owner, start, m, new, flow_rank(a), flow_rank(b), id);
}

/// Whether the frames of a store's table cells have ids that were given out.
pub open spec fn cells_given_out(store: StoreModel) -> bool {
    forall|table: EntityId, k: int|
        0 <= k < cell_frames(store, table).len() ==> #[trigger] cell_frames(store, table)[k]
            < counter_of(store.counters, "frame"@)
}

/// Wrapping blocks in a frame leaves the order of the document's blocks as it is.
pub proof fn wrap_keeps_the_order(
    store: StoreModel,
    dto: WrapBlocksInFrameDto,
    plan: WrapPlan,
    now: i64,
    id: EntityId,
)
    requires
        wrap_plan(store, dto) == Ok::<WrapPlan, EditError>(plan),
        is_flow(store),
        frames_given_out(store),
        cells_given_out(store),
        frame_ids_fit(store),
        id != counter_of(store.counters, "frame"@),
    ensures
        is_flow(wrapped(store, dto, plan, now)),
        blocks_of_frame(wrapped(store, dto, plan, now), id) == blocks_of_frame(store, id),
{
    let new = counter_of(store.counters, "frame"@);
    let after = wrapped(store, dto, plan, now);
    let m = plan.end + 1 - plan.start;
    wrap_plan_holds(store, dto, plan);
    wrap_moves_a_range(store, dto, plan, now, plan.owner_id);
    wrap_moves_a_range(store, dto, plan, now, new);
    wrap_keeps_other_frames(store, dto, plan, now, new);
    assert forall|other: EntityId| other != new implies {
        &&& #[trigger] frame_in(store.frames, other) is Some <==> frame_in(
            after.frames,
            other,
        ) is Some
        &&& frame_in(store.frames, other) is Some ==> frame_in(store.frames, other)->0.table
            == frame_in(after.frames, other)->0.table
    } by {
        wrap_keeps_other_frames(store, dto, plan, now, other);
    }
    assert forall|other: EntityId| other != new && other != plan.owner_id implies #[trigger]
    children(store.frames, other) == children(after.frames, other) by {
        wrap_moves_a_range(store, dto, plan, now, other);
    }
    assert(frame_in(store.frames, new) is None);
    assert(encloses(store, after, plan.owner_id, plan.start, m, new));
    enclosing_keeps_the_order(store, after, plan.owner_id, plan.start, m, new, id);
}

/// Whether a frame is a child of one frame only, and there once, and no cell of a
/// table.
pub open spec fn held_once(store: StoreModel, id: EntityId, parent: EntityId, at: int) -> bool {
    &&& forall|other: EntityId, k: int|
        0 <= k < children(store.frames, other).len() && #[trigger] children(store.frames, other)[k]
            < 0 && sub_frame(children(store.frames, other)[k]) == id ==> other == parent && k == at
    &&& forall|table: EntityId, k: int|
        0 <= k < cell_frames(store, table).len() ==> #[trigger] cell_frames(store, table)[k] != id
}

/// Unwrapping a frame leaves the order of the document's blocks as it is.
pub proof fn unwrap_keeps_the_order(
    store: StoreModel,
    dto: UnwrapFrameDto,
    plan: UnwrapFramePlan,
    now: i64,
    id: EntityId,
)
    requires
        unwrap_frame_plan(store, dto) == Ok::<UnwrapFramePlan, EditError>(plan),
        is_flow(store),
        frames_given_out(store),
        frame_ids_fit(store),
        held_once(store, plan.frame_id, plan.parent_id, plan.at),
        id != plan.frame_id,
    ensures
        is_flow(frame_unwrapped(store, plan, now)),
        blocks_of_frame(frame_unwrapped(store, plan, now), id) == blocks_of_frame(store, id),
{
    let after = frame_unwrapped(store, plan, now);
    let entries = children(store.frames, plan.parent_id);
    let inner = children(store.frames, plan.frame_id);
    let joined = children(after.frames, plan.parent_id);
    let m = inner.len() as int;
    assert(is_rank(store.frames, flow_rank(store)));
    unwrap_plan_holds(store, dto, plan);
    unwrap_puts_children_in_place(store, dto, plan, now, plan.parent_id);
    unwrap_puts_children_in_place(store, dto, plan, now, plan.frame_id);
    assert forall|other: EntityId| other != plan.frame_id implies {
        &&& #[trigger] frame_in(after.frames, other) is Some <==> frame_in(
            store.frames,
            other,
        ) is Some
        &&& frame_in(after.frames, other) is Some ==> frame_in(after.frames, other)->0.table
            == frame_in(store.frames, other)->0.table
    } by {
        unwrap_keeps_other_frames(store, dto, plan, now, other);
    }
    assert forall|other: EntityId|
        other != plan.frame_id && other != plan.parent_id implies #[trigger] children(
        after.frames,
        other,
    ) == children(store.frames, other) by {
        unwrap_puts_children_in_place(store, dto, plan, now, other);
    }
    assert forall|other: EntityId, k: int|
        0 <= k < children(after.frames, other).len() && #[trigger] children(after.frames, other)[k]
            < 0 implies sub_frame(children(after.frames, other)[k]) != plan.frame_id by {
        let entry = children(after.frames, other)[k];
        if other == plan.parent_id {
            if k < plan.at {
                assert(entries[k] == entry);
            } else if k < plan.at + m {
                assert(inner[k - plan.at] == entry);
            } else {
                assert(entries[k - m + 1] == entry);
            }
        } else {
            unwrap_puts_children_in_place(store, dto, plan, now, other);
            assert(children(store.frames, other)[k] == entry);
        }
    }
    assert(joined.subrange(plan.at, plan.at + m) =~= inner);
    assert(spliced_entries(
        joined,
        plan.at,
        plan.at + m,
        seq![(-(plan.frame_id as int)) as i64],
    ) =~= entries);
    unwrap_keeps_other_frames(store, dto, plan, now, plan.parent_id);
    assert forall|table: EntityId, k: int| 0 <= k < cell_frames(after, table).len() implies
    #[trigger] cell_frames(after, table)[k] != plan.frame_id by {
        assert(cell_frames(store, table)[k] == cell_frames(after, table)[k]);
    }
    assert(encloses(after, store, plan.parent_id, plan.at, m, plan.frame_id));
    enclosing_keeps_the_order(after, store, plan.parent_id, plan.at, m, plan.frame_id, id);
}

/// A store with the children of a frame in its place.
spec fn opened(store: StoreModel, owner: EntityId, at: int, sub: EntityId) -> StoreModel {
    StoreModel {
        frames: store.frames.remove(sub).insert(
            owner,
            RowModel::Frame(
                FrameModel {
                    child_order: spliced_entries(
                        children(store.frames, owner),
                        at,
                        at + 1,
                        children(store.frames, sub),
                    ),
                    ..frame_in(store.frames, owner)->0
                },
            ),
        ),
        ..store
    }
}

proof fn opened_is_enclosed(store: StoreModel, owner: EntityId, at: int, sub: EntityId)
    requires
        owner != sub,
        0 < sub <= i64::MAX,
        frame_in(store.frames, owner) is Some,
        frame_in(store.frames, sub) is Some,
        frame_in(store.frames, sub)->0.table is None,
        0 <= at < children(store.frames, owner).len(),
        children(store.frames, owner)[at] == -(sub as int),
        held_once(store, sub, owner, at),
    ensures
        encloses(
            opened(store, owner, at, sub),
            store,
            owner,
            at,
            children(store.frames, sub).len() as int,
            sub,
        ),
{
    let a = opened(store, owner, at, sub);
    let entries = children(store.frames, owner);
    let inner = children(store.frames, sub);
    let joined = children(a.frames, owner);
    let m = inner.len() as int;
    assert(joined.subrange(at, at + m) =~= inner);
    assert(spliced_entries(joined, at, at + m, seq![(-(sub as int)) as i64]) =~= entries);
    assert forall|other: EntityId, k: int|
        0 <= k < children(a.frames, other).len() && #[trigger] children(a.frames, other)[k]
            < 0 implies sub_frame(children(a.frames, other)[k]) != sub by {
        let entry = children(a.frames, other)[k];
        if other == owner {
            if k < at {
                assert(entries[k] == entry);
            } else if k < at + m {
                assert(inner[k - at] == entry);
            } else {
                assert(entries[k - m + 1] == entry);
            }
        } else {
            assert(children(store.frames, other)[k] == entry);
        }
    }
    assert forall|table: EntityId, k: int| 0 <= k < cell_frames(a, table).len() implies
    #[trigger] cell_frames(a, table)[k] != sub by {
        assert(cell_frames(store, table)[k] == cell_frames(a, table)[k]);
    }
}

/// What stood behind the block that is lifted out.
spec fn tail_of(store: StoreModel, plan: UnwrapBlockPlan) -> Seq<i64> {
    children(store.frames, plan.owner_id).skip(plan.block_at + 1)
}

/// Where the parent holds the frame of what stood behind the block.
spec fn tail_place(plan: UnwrapBlockPlan) -> int {
    plan.owner_at + if plan.block_at > 0 {
        2int
    } else {
        1int
    }
}

/// The store after a block was lifted out, with what stood behind it in the parent
/// itself.
spec fn tail_opened(store: StoreModel, plan: UnwrapBlockPlan, now: i64) -> StoreModel {
    let after = block_unwrapped(store, plan, now);
    if tail_of(store, plan).len() > 0 {
        opened(after, plan.parent_id, tail_place(plan), counter_of(store.counters, "frame"@))
    } else {
        after
    }
}

/// The store after a block was lifted out, with everything that was in its frame in
/// the parent itself.
spec fn all_opened(store: StoreModel, plan: UnwrapBlockPlan, now: i64) -> StoreModel {
    let half = tail_opened(store, plan, now);
    if plan.block_at > 0 {
        opened(half, plan.parent_id, plan.owner_at, plan.owner_id)
    } else {
        half
    }
}

/// Where the old frame and the new one stand after a block was lifted out.
proof fn lifted_places(
    store: StoreModel,
    dto: UnwrapBlockFromFrameDto,
    plan: UnwrapBlockPlan,
    now: i64,
    other: EntityId,
    k: int,
)
    requires
        unwrap_block_plan(store, dto) == Ok::<UnwrapBlockPlan, EditError>(plan),
        is_forest(store.frames),
        frames_given_out(store),
        cells_given_out(store),
        frame_ids_fit(store),
        held_once(store, plan.owner_id, plan.parent_id, plan.owner_at),
        0 <= k < children(block_unwrapped(store, plan, now).frames, other).len(),
        children(block_unwrapped(store, plan, now).frames, other)[k] < 0,
    ensures
        ({
            let sub = sub_frame(children(block_unwrapped(store, plan, now).frames, other)[k]);
            let new = counter_of(store.counters, "frame"@);
            &&& sub == plan.owner_id ==> other == plan.parent_id && k == plan.owner_at
                && plan.block_at > 0
            &&& sub == new ==> other == plan.parent_id && k == tail_place(plan) && tail_of(
                store,
                plan,
            ).len() > 0
        }),
{
    lift_plan_holds(store, dto, plan);
    lift_cuts_the_frame(store, dto, plan, now, other);
    let new = counter_of(store.counters, "frame"@);
    let owner = plan.owner_id;
    let held = children(store.frames, owner);
    let outer = children(store.frames, plan.parent_id);
    let lifted = lifted_entries(store, plan);
    let entry = children(block_unwrapped(store, plan, now).frames, other)[k];
    if other == plan.parent_id {
        if k < plan.owner_at {
            assert(outer[k] == entry);
        } else if k < plan.owner_at + lifted.len() {
            assert(lifted[k - plan.owner_at] == entry);
            assert(sub_frame((-(owner as int)) as i64) == owner);
            assert(sub_frame((-(new as int)) as i64) == new);
        } else {
            assert(outer[k - lifted.len() + 1] == entry);
        }
    } else if other == owner {
        assert(held[k] == entry);
    } else if other == new && tail_of(store, plan).len() > 0 {
        assert(held[plan.block_at + 1 + k] == entry);
    } else {
        assert(children(store.frames, other)[k] == entry);
    }
}

/// The frame of what stood behind the block encloses it.
proof fn tail_is_enclosed(
    store: StoreModel,
    dto: UnwrapBlockFromFrameDto,
    plan: UnwrapBlockPlan,
    now: i64,
)
    requires
        unwrap_block_plan(store, dto) == Ok::<UnwrapBlockPlan, EditError>(plan),
        is_forest(store.frames),
        frames_given_out(store),
        cells_given_out(store),
        frame_ids_fit(store),
        held_once(store, plan.owner_id, plan.parent_id, plan.owner_at),
    ensures
        ({
            let after = block_unwrapped(store, plan, now);
            let half = tail_opened(store, plan, now);
            let new = counter_of(store.counters, "frame"@);
            let tail = tail_of(store, plan);
            let outer = children(store.frames, plan.parent_id);
            &&& tail.len() > 0 ==> encloses(
                half,
                after,
                plan.parent_id,
                tail_place(plan),
                tail.len() as int,
                new,
            )
            &&& children(half.frames, plan.parent_id) == outer.take(plan.owner_at) + (
            if plan.block_at > 0 {
                seq![(-(plan.owner_id as int)) as i64]
            } else {
                Seq::empty()
            }) + seq![plan.block_id] + tail + outer.skip(plan.owner_at + 1)
        }),
{
    lift_plan_holds(store, dto, plan);
    let new = counter_of(store.counters, "frame"@);
    let after = block_unwrapped(store, plan, now);
    let half = tail_opened(store, plan, now);
    let parent = plan.parent_id;
    let tail = tail_of(store, plan);
    let outer = children(store.frames, parent);
    lift_cuts_the_frame(store, dto, plan, now, parent);
    lift_cuts_the_frame(store, dto, plan, now, new);
    lift_keeps_other_frames(store, dto, plan, now, parent);
    lift_keeps_other_frames(store, dto, plan, now, new);
    let lifted = lifted_entries(store, plan);
    let spliced = children(after.frames, parent);
    assert(spliced == outer.take(plan.owner_at) + lifted + outer.skip(plan.owner_at + 1));
    if tail.len() > 0 {
        assert(spliced[tail_place(plan)] == -(new as int));
        assert(held_once(after, new, parent, tail_place(plan))) by {
            assert forall|other: EntityId, k: int|
                0 <= k < children(after.frames, other).len() && #[trigger] children(
                    after.frames,
                    other,
                )[k] < 0 && sub_frame(children(after.frames, other)[k]) == new implies other
                == parent && k == tail_place(plan) by {
                lifted_places(store, dto, plan, now, other, k);
            }
            assert forall|table: EntityId, k: int| 0 <= k < cell_frames(after, table).len() implies
            #[trigger] cell_frames(after, table)[k] != new by {
                assert(cell_frames(store, table)[k] == cell_frames(after, table)[k]);
            }
        }
        opened_is_enclosed(after, parent, tail_place(plan), new);
    }
    assert(children(half.frames, parent) =~= outer.take(plan.owner_at) + (if plan.block_at > 0 {
        seq![(-(plan.owner_id as int)) as i64]
    } else {
        Seq::empty()
    }) + seq![plan.block_id] + tail + outer.skip(plan.owner_at + 1));
}

/// What is left of the old frame encloses what stood before the block.
proof fn head_is_enclosed(
    store: StoreModel,
    dto: UnwrapBlockFromFrameDto,
    plan: UnwrapBlockPlan,
    now: i64,
)
    requires
        unwrap_block_plan(store, dto) == Ok::<UnwrapBlockPlan, EditError>(plan),
        is_forest(store.frames),
        frames_given_out(store),
        cells_given_out(store),
        frame_ids_fit(store),
        held_once(store, plan.owner_id, plan.parent_id, plan.owner_at),
    ensures
        plan.block_at > 0 ==> encloses(
            all_opened(store, plan, now),
            tail_opened(store, plan, now),
            plan.parent_id,
            plan.owner_at,
            plan.block_at,
            plan.owner_id,
        ),
        children(all_opened(store, plan, now).frames, plan.parent_id) == spliced_entries(
            children(store.frames, plan.parent_id),
            plan.owner_at,
            plan.owner_at + 1,
            children(store.frames, plan.owner_id),
        ),
{
    lift_plan_holds(store, dto, plan);
    tail_is_enclosed(store, dto, plan, now);
    let new = counter_of(store.counters, "frame"@);
    let after = block_unwrapped(store, plan, now);
    let half = tail_opened(store, plan, now);
    let owner = plan.owner_id;
    let parent = plan.parent_id;
    let held = children(store.frames, owner);
    let tail = tail_of(store, plan);
    let outer = children(store.frames, parent);
    lift_cuts_the_frame(store, dto, plan, now, owner);
    lift_keeps_other_frames(store, dto, plan, now, owner);
    lift_keeps_other_frames(store, dto, plan, now, parent);
    assert(held =~= held.take(plan.block_at) + seq![plan.block_id] + tail);
    if plan.block_at > 0 {
        let flat = children(half.frames, parent);
        assert(flat[plan.owner_at] == -(owner as int));
        assert(held_once(half, owner, parent, plan.owner_at)) by {
            assert forall|other: EntityId, k: int|
                0 <= k < children(half.frames, other).len() && #[trigger] children(
                    half.frames,
                    other,
                )[k] < 0 && sub_frame(children(half.frames, other)[k]) == owner implies other
                == parent && k == plan.owner_at by {
                let entry = children(half.frames, other)[k];
                if other == parent {
                    if plan.owner_at + 1 < k < plan.owner_at + 2 + tail.len() {
                        assert(held[k - plan.owner_at - 1 + plan.block_at] == entry);
                    } else if k >= plan.owner_at + 2 + tail.len() {
                        assert(outer[k - tail.len() - 1] == entry);
                    } else if k < plan.owner_at {
                        assert(outer[k] == entry);
                    }
                } else if other != new || tail.len() == 0 {
                    assert(children(after.frames, other)[k] == entry);
                    lifted_places(store, dto, plan, now, other, k);
                }
            }
            assert forall|table: EntityId, k: int| 0 <= k < cell_frames(half, table).len() implies
            #[trigger] cell_frames(half, table)[k] != owner by {
                assert(cell_frames(store, table)[k] == cell_frames(half, table)[k]);
            }
        }
        opened_is_enclosed(half, parent, plan.owner_at, owner);
    }
    assert(children(all_opened(store, plan, now).frames, parent) =~= spliced_entries(
        outer,
        plan.owner_at,
        plan.owner_at + 1,
        held,
    ));
}

/// Opened all the way, it is the store with the old frame opened.
proof fn owner_is_enclosed(
    store: StoreModel,
    dto: UnwrapBlockFromFrameDto,
    plan: UnwrapBlockPlan,
    now: i64,
)
    requires
        unwrap_block_plan(store, dto) == Ok::<UnwrapBlockPlan, EditError>(plan),
        is_forest(store.frames),
        frames_given_out(store),
        cells_given_out(store),
        frame_ids_fit(store),
        held_once(store, plan.owner_id, plan.parent_id, plan.owner_at),
    ensures
        encloses(
            all_opened(store, plan, now),
            store,
            plan.parent_id,
            plan.owner_at,
            children(store.frames, plan.owner_id).len() as int,
            plan.owner_id,
        ),
{
    lift_plan_holds(store, dto, plan);
    head_is_enclosed(store, dto, plan, now);
    let new = counter_of(store.counters, "frame"@);
    let a = all_opened(store, plan, now);
    let owner = plan.owner_id;
    let parent = plan.parent_id;
    let held = children(store.frames, owner);
    let outer = children(store.frames, parent);
    let m = held.len() as int;
    let joined = children(a.frames, parent);
    assert(joined.subrange(plan.owner_at, plan.owner_at + m) =~= held);
    assert(spliced_entries(
        joined,
        plan.owner_at,
        plan.owner_at + m,
        seq![(-(owner as int)) as i64],
    ) =~= outer);
    assert forall|other: EntityId| other != owner implies {
        &&& #[trigger] frame_in(a.frames, other) is Some <==> frame_in(store.frames, other) is Some
        &&& frame_in(a.frames, other) is Some ==> frame_in(a.frames, other)->0.table == frame_in(
            store.frames,
            other,
        )->0.table
    } by {
        lift_keeps_other_frames(store, dto, plan, now, other);
    }
    assert forall|other: EntityId| other != owner && other != parent implies #[trigger] children(
        a.frames,
        other,
    ) == children(store.frames, other) by {
        lift_cuts_the_frame(store, dto, plan, now, other);
        lift_keeps_other_frames(store, dto, plan, now, other);
        if other == new {
            assert(children(a.frames, other) =~= children(store.frames, other));
        }
    }
    lift_keeps_other_frames(store, dto, plan, now, owner);
    assert(frame_in(a.frames, owner) is None);
    assert forall|other: EntityId, k: int|
        0 <= k < children(a.frames, other).len() && #[trigger] children(a.frames, other)[k]
            < 0 implies sub_frame(children(a.frames, other)[k]) != owner by {
        let entry = children(a.frames, other)[k];
        if other == parent {
            if k < plan.owner_at {
                assert(outer[k] == entry);
            } else if k < plan.owner_at + m {
                assert(held[k - plan.owner_at] == entry);
            } else {
                assert(outer[k - m + 1] == entry);
            }
        } else if other != owner {
            assert(children(store.frames, other)[k] == entry);
        }
    }
    assert forall|table: EntityId, k: int| 0 <= k < cell_frames(a, table).len() implies
    #[trigger] cell_frames(a, table)[k] != owner by {
        assert(cell_frames(store, table)[k] == cell_frames(a, table)[k]);
    }
}

/// Lifting a block out of its frame leaves the order of the document's blocks as it
/// is.
pub proof fn lift_keeps_the_order(
    store: StoreModel,
    dto: UnwrapBlockFromFrameDto,
    plan: UnwrapBlockPlan,
    now: i64,
    id: EntityId,
)
    requires
        unwrap_block_plan(store, dto) == Ok::<UnwrapBlockPlan, EditError>(plan),
        is_flow(store),
        frames_given_out(store),
        cells_given_out(store),
        frame_ids_fit(store),
        held_once(store, plan.owner_id, plan.parent_id, plan.owner_at),
        id != plan.owner_id,
        id != counter_of(store.counters, "frame"@),
    ensures
        is_flow(block_unwrapped(store, plan, now)),
        blocks_of_frame(block_unwrapped(store, plan, now), id) == blocks_of_frame(store, id),
{
    assert(is_rank(store.frames, flow_rank(store)));
    let after = block_unwrapped(store, plan, now);
    let half = tail_opened(store, plan, now);
    let a = all_opened(store, plan, now);
    let new = counter_of(store.counters, "frame"@);
    let parent = plan.parent_id;
    let owner = plan.owner_id;
    let m = children(store.frames, owner).len() as int;
    let n = tail_of(store, plan).len() as int;
    tail_is_enclosed(store, dto, plan, now);
    head_is_enclosed(store, dto, plan, now);
    owner_is_enclosed(store, dto, plan, now);
    enclosing_keeps_the_order(a, store, parent, plan.owner_at, m, owner, id);
    if plan.block_at > 0 {
        enclosing_keeps_the_order(a, half, parent, plan.owner_at, plan.block_at, owner, id);
    }
    if n > 0 {
        enclosing_keeps_the_order(half, after, parent, tail_place(plan), n, new, id);
    }
}

} // verus!
