//! The blocks of a document in the order of its flow.
use vstd::prelude::*;

use crate::database::rope_store::{RopeStore, StoreModel};
use crate::database::rows::{
    block_in, find_block, find_frame, find_row, frame_in, rows_of, Row, RowModel, Rows,
};
use crate::document_editing::edit_error::EditError;
use crate::document_editing::frames::{child, child_count, is_rank, sub_frame, sub_frame_id};
use crate::entities::{copy_list, Block, EntityId, TableCell};
use crate::models::group_deep_view;

verus! {

broadcast use group_deep_view;

/// What is sorted by two numbers.
pub trait Ranked: Copy {
    /// The numbers, the first before the second.
    spec fn rank(self) -> (int, int);

    /// Whether this comes before another.
    fn is_before(&self, other: &Self) -> (before: bool)
        ensures
            before == ranks_before(self.rank(), other.rank()),
    ;
}

/// Whether one pair of numbers comes before another.
pub open spec fn ranks_before(a: (int, int), b: (int, int)) -> bool {
    a.0 < b.0 || (a.0 == b.0 && a.1 < b.1)
}

impl Ranked for Block {
    open spec fn rank(self) -> (int, int) {
        (self.document_position as int, 0)
    }

    fn is_before(&self, other: &Self) -> (before: bool) {
        self.document_position < other.document_position
    }
}

impl Ranked for TableCell {
    open spec fn rank(self) -> (int, int) {
        (self.row as int, self.column as int)
    }

    fn is_before(&self, other: &Self) -> (before: bool) {
        self.row < other.row || (self.row == other.row && self.column < other.column)
    }
}

/// An item put behind all those that it does not come before.
pub open spec fn sort_in<T: Ranked>(items: Seq<T>, item: T) -> Seq<T>
    decreases items.len(),
{
    if items.len() == 0 || !ranks_before(item.rank(), items.last().rank()) {
        items.push(item)
    } else {
        sort_in(items.drop_last(), item).push(items.last())
    }
}

/// Items in order, those of one rank in the order they came in.
pub open spec fn sorted<T: Ranked>(items: Seq<T>) -> Seq<T>
    decreases items.len(),
{
    if items.len() == 0 {
        items
    } else {
        sort_in(sorted(items.drop_last()), items.last())
    }
}

proof fn sort_in_at<T: Ranked>(items: Seq<T>, item: T, k: int)
    requires
        0 <= k <= items.len(),
        forall|i: int|
            k <= i < items.len() ==> ranks_before(item.rank(), (#[trigger] items[i]).rank()),
        k > 0 ==> !ranks_before(item.rank(), items[k - 1].rank()),
    ensures
        sort_in(items, item) == items.insert(k, item),
    decreases items.len(),
{
    if k == items.len() {
        assert(items.insert(k, item) =~= items.push(item));
    } else {
        assert(items.last() == items[items.len() - 1]);
        sort_in_at(items.drop_last(), item, k);
        assert(items.insert(k, item) =~= items.drop_last().insert(k, item).push(items.last()));
    }
}

/// Items in order.
pub(crate) fn sort<T: Ranked>(items: &Vec<T>) -> (ordered: Vec<T>)
    ensures
        ordered@ == sorted(items@),
{
    let mut ordered: Vec<T> = Vec::new();
    for i in 0..items.len()
        invariant
            ordered@ == sorted(items@.take(i as int)),
    {
        assert(items@.take(i + 1).drop_last() =~= items@.take(i as int));
        let item = items[i];
        let mut k: usize = ordered.len();
        while k > 0 && item.is_before(&ordered[k - 1])
            invariant
                k <= ordered@.len(),
                forall|j: int|
                    k <= j < ordered@.len() ==> ranks_before(
                        item.rank(),
                        (#[trigger] ordered@[j]).rank(),
                    ),
            decreases k,
        {
            k -= 1;
        }
        proof {
            sort_in_at(ordered@, item, k as int);
        }
        ordered.insert(k, item);
    }
    assert(items@.take(items@.len() as int) =~= items@);
    ordered
}

proof fn sort_in_keeps<T: Ranked>(items: Seq<T>, item: T)
    requires
        forall|i: int, j: int|
            0 <= i < j < items.len() ==> !ranks_before(
                (#[trigger] items[j]).rank(),
                (#[trigger] items[i]).rank(),
            ),
    ensures
        forall|i: int, j: int|
            0 <= i < j < sort_in(items, item).len() ==> !ranks_before(
                (#[trigger] sort_in(items, item)[j]).rank(),
                (#[trigger] sort_in(items, item)[i]).rank(),
            ),
        sort_in(items, item).to_multiset() == items.to_multiset().insert(item),
        forall|i: int|
            0 <= i < sort_in(items, item).len() ==> {
                ||| (#[trigger] sort_in(items, item)[i]) == item
                ||| items.contains(sort_in(items, item)[i])
            },
    decreases items.len(),
{
    broadcast use vstd::seq_lib::group_to_multiset_ensures;

    let new = sort_in(items, item);
    if items.len() == 0 || !ranks_before(item.rank(), items.last().rank()) {
        assert forall|i: int, j: int| 0 <= i < j < new.len() implies !ranks_before(
            (#[trigger] new[j]).rank(),
            (#[trigger] new[i]).rank(),
        ) by {
            if j == items.len() && i < items.len() - 1 {
                assert(!ranks_before(items[items.len() - 1].rank(), items[i].rank()));
            }
        }
        assert forall|i: int| 0 <= i < new.len() implies {
            ||| (#[trigger] new[i]) == item
            ||| items.contains(new[i])
        } by {
            if i < items.len() {
                assert(items[i] == new[i]);
            }
        }
    } else {
        let rest = items.drop_last();
        let last = items.last();
        assert forall|i: int, j: int| 0 <= i < j < rest.len() implies !ranks_before(
            (#[trigger] rest[j]).rank(),
            (#[trigger] rest[i]).rank(),
        ) by {
            assert(!ranks_before(items[j].rank(), items[i].rank()));
        }
        sort_in_keeps(rest, item);
        let kept = sort_in(rest, item);
        assert forall|i: int| 0 <= i < kept.len() implies items.contains(#[trigger] kept[i])
            || kept[i] == item by {
            if kept[i] != item {
                let k = choose|k: int| 0 <= k < rest.len() && rest[k] == kept[i];
                assert(items[k] == kept[i]);
            }
        }
        assert forall|i: int, j: int| 0 <= i < j < new.len() implies !ranks_before(
            (#[trigger] new[j]).rank(),
            (#[trigger] new[i]).rank(),
        ) by {
            if j < kept.len() {
                assert(!ranks_before(kept[j].rank(), kept[i].rank()));
            } else {
                assert(new[i] == kept[i]);
                if kept[i] != item {
                    let k = choose|k: int| 0 <= k < rest.len() && rest[k] == kept[i];
                    assert(items[k] == kept[i]);
                    assert(!ranks_before(items[items.len() - 1].rank(), items[k].rank()));
                }
            }
        }
        assert forall|i: int| 0 <= i < new.len() implies {
            ||| (#[trigger] new[i]) == item
            ||| items.contains(new[i])
        } by {
            if i < kept.len() {
                assert(new[i] == kept[i]);
            } else {
                assert(items[items.len() - 1] == new[i]);
            }
        }
        assert(items =~= rest.push(last));
        assert(new.to_multiset() =~= items.to_multiset().insert(item));
    }
}

/// Sorted items are the same items, none before an earlier one.
pub proof fn sorting_orders_the_items<T: Ranked>(items: Seq<T>)
    ensures
        forall|i: int, j: int|
            0 <= i < j < sorted(items).len() ==> !ranks_before(
                (#[trigger] sorted(items)[j]).rank(),
                (#[trigger] sorted(items)[i]).rank(),
            ),
        sorted(items).to_multiset() == items.to_multiset(),
    decreases items.len(),
{
    broadcast use vstd::seq_lib::group_to_multiset_ensures;

    if items.len() > 0 {
        sorting_orders_the_items(items.drop_last());
        sort_in_keeps(sorted(items.drop_last()), items.last());
        assert(items =~= items.drop_last().push(items.last()));
    }
}

// ─── Table cells ─────────────────────────────────────────────────────

/// The cells under ids, those that are there.
pub open spec fn cells_found(cells: Map<EntityId, RowModel>, ids: Seq<EntityId>) -> Seq<TableCell>
    decreases ids.len(),
{
    if ids.len() == 0 {
        Seq::empty()
    } else {
        let rest = cells_found(cells, ids.drop_last());
        let id = ids.last();
        if cells.dom().contains(id) && cells[id] is TableCell {
            rest.push(cells[id]->TableCell_0)
        } else {
            rest
        }
    }
}

/// The frames of cells that have one.
pub open spec fn frames_of(cells: Seq<TableCell>) -> Seq<EntityId>
    decreases cells.len(),
{
    if cells.len() == 0 {
        Seq::empty()
    } else {
        let rest = frames_of(cells.drop_last());
        match cells.last().cell_frame {
            Some(id) => rest.push(id),
            None => rest,
        }
    }
}

/// The cells of a table, by its id.
pub open spec fn cell_ids(tables: Map<EntityId, RowModel>, table: EntityId) -> Seq<EntityId> {
    if tables.dom().contains(table) && tables[table] is Table {
        tables[table]->Table_0.cells
    } else {
        Seq::empty()
    }
}

/// The frames of a table's cells, row by row.
pub open spec fn cell_frames(store: StoreModel, table: EntityId) -> Seq<EntityId> {
    frames_of(sorted(cells_found(store.table_cells, cell_ids(store.tables, table))))
}

/// The frames of a table's cells, row by row.
pub(crate) fn table_cell_frames(store: &RopeStore, table: EntityId) -> (frames: Vec<EntityId>)
    ensures
        frames@ == cell_frames(store.deep_view(), table),
{
    let ids: Vec<EntityId> = match find_row(&store.tables, table) {
        Some(Row::Table(table)) => copy_list(&table.cells),
        _ => Vec::new(),
    };
    assert(ids@ =~= cell_ids(store.deep_view().tables, table));
    let mut cells: Vec<TableCell> = Vec::new();
    for i in 0..ids.len()
        invariant
            cells@ == cells_found(store.deep_view().table_cells, ids@.take(i as int)),
    {
        assert(ids@.take(i + 1).drop_last() =~= ids@.take(i as int));
        if let Some(Row::TableCell(cell)) = find_row(&store.table_cells, ids[i]) {
            cells.push(*cell);
        }
    }
    assert(ids@.take(ids@.len() as int) =~= ids@);
    let cells = sort(&cells);
    let mut frames: Vec<EntityId> = Vec::new();
    for i in 0..cells.len()
        invariant
            frames@ == frames_of(cells@.take(i as int)),
    {
        assert(cells@.take(i + 1).drop_last() =~= cells@.take(i as int));
        if let Some(id) = cells[i].cell_frame {
            frames.push(id);
        }
    }
    assert(cells@.take(cells@.len() as int) =~= cells@);
    frames
}

// ─── The flow ────────────────────────────────────────────────────────

/// Whether every frame ranks above the frames it holds, as children or as cells.
pub open spec fn is_flow_rank(store: StoreModel, rank: spec_fn(EntityId) -> nat) -> bool {
    &&& is_rank(store.frames, rank)
    &&& forall|id: EntityId, k: int|
        frame_in(store.frames, id) is Some && frame_in(store.frames, id)->0.table is Some && 0 <= k
            < cell_frames(store, frame_in(store.frames, id)->0.table->0).len() ==> rank(
            #[trigger] cell_frames(store, frame_in(store.frames, id)->0.table->0)[k],
        ) < rank(id)
}

/// Whether no frame holds itself, at any depth, as a child or as a cell.
pub open spec fn is_flow(store: StoreModel) -> bool {
    exists|rank: spec_fn(EntityId) -> nat| is_flow_rank(store, rank)
}

/// Ranks by which every frame ranks above the frames it holds.
pub open spec fn flow_rank(store: StoreModel) -> spec_fn(EntityId) -> nat {
    choose|rank: spec_fn(EntityId) -> nat| is_flow_rank(store, rank)
}

/// The blocks of the first `n` children of a frame, in the order of the flow. The
/// frame of a table stands for its cells.
pub open spec fn flow_blocks(
    store: StoreModel,
    rank: spec_fn(EntityId) -> nat,
    id: EntityId,
    n: int,
) -> Result<Seq<EntityId>, EditError>
    decreases rank(id), 1int, n,
{
    if frame_in(store.frames, id) is None {
        Err(EditError::FrameNotFound)
    } else if n <= 0 {
        Ok(Seq::empty())
    } else {
        match flow_blocks(store, rank, id, n - 1) {
            Err(e) => Err(e),
            Ok(rest) => {
                let entry = child(store.frames, id, n - 1);
                let sub = sub_frame(entry);
                if entry > 0 {
                    Ok(rest.push(entry as EntityId))
                } else if entry < 0 && rank(sub) < rank(id) {
                    let more = match frame_in(store.frames, sub) {
                        None => Err(EditError::FrameNotFound),
                        Some(frame) => match frame.table {
                            Some(table) => flow_list(
                                store,
                                rank,
                                cell_frames(store, table),
                                cell_frames(store, table).len() as int,
                                rank(sub),
                            ),
                            None => flow_blocks(
                                store,
                                rank,
                                sub,
                                child_count(store.frames, sub),
                            ),
                        },
                    };
                    match more {
                        Err(e) => Err(e),
                        Ok(more) => Ok(rest + more),
                    }
                } else {
                    Ok(rest)
                }
            },
        }
    }
}

/// The blocks of the first `n` of some frames, one frame after the other.
pub open spec fn flow_list(
    store: StoreModel,
    rank: spec_fn(EntityId) -> nat,
    ids: Seq<EntityId>,
    n: int,
    bound: nat,
) -> Result<Seq<EntityId>, EditError>
    decreases bound, 0int, n,
{
    if n <= 0 {
        Ok(Seq::empty())
    } else {
        match flow_list(store, rank, ids, n - 1, bound) {
            Err(e) => Err(e),
            Ok(rest) => if rank(ids[n - 1]) < bound {
                match flow_blocks(store, rank, ids[n - 1], child_count(store.frames, ids[n - 1])) {
                    Err(e) => Err(e),
                    Ok(more) => Ok(rest + more),
                }
            } else {
                Ok(rest)
            },
        }
    }
}

/// The blocks of a frame, in the order of the flow.
pub open spec fn blocks_of_frame(store: StoreModel, id: EntityId) -> Result<
    Seq<EntityId>,
    EditError,
> {
    flow_blocks(store, flow_rank(store), id, child_count(store.frames, id))
}

/// Collects the blocks of a frame, in the order of the flow.
pub fn collect_block_ids_recursive(store: &RopeStore, id: EntityId) -> (res: Result<
    Vec<EntityId>,
    EditError,
>)
    requires
        is_flow(store.deep_view()),
    ensures
        match res {
            Ok(ids) => blocks_of_frame(store.deep_view(), id) == Ok::<Seq<EntityId>, EditError>(
                ids@,
            ),
            Err(e) => blocks_of_frame(store.deep_view(), id) == Err::<Seq<EntityId>, EditError>(e),
        },
    decreases flow_rank(store.deep_view())(id), 1int,
{
    let ghost model = store.deep_view();
    let ghost rank = flow_rank(model);
    assert(is_flow_rank(model, rank));
    match find_frame(&store.frames, id) {
        None => Err(EditError::FrameNotFound),
        Some(frame) => {
            let mut ids: Vec<EntityId> = Vec::new();
            let count: usize = frame.child_order.len();
            let mut failed: Option<EditError> = None;
            let mut i: usize = 0;
            while i < count && failed.is_none()
                invariant
                    model == store.deep_view(),
                    rank == flow_rank(model),
                    is_flow(model),
                    is_flow_rank(model, rank),
                    frame_in(model.frames, id) == Some(frame.deep_view()),
                    count == frame.child_order@.len(),
                    i <= count,
                    match failed {
                        None => flow_blocks(model, rank, id, i as int) == Ok::<
                            Seq<EntityId>,
                            EditError,
                        >(ids@),
                        Some(e) => flow_blocks(model, rank, id, i as int) == Err::<
                            Seq<EntityId>,
                            EditError,
                        >(e),
                    },
                decreases count - i,
            {
                let entry: i64 = frame.child_order[i];
                assert(child(model.frames, id, i as int) == entry);
                if entry > 0 {
                    ids.push(entry as EntityId);
                } else if entry < 0 {
                    match collect_sub_frame(store, sub_frame_id(entry)) {
                        Ok(mut more) => {
                            ids.append(&mut more);
                        },
                        Err(e) => {
                            failed = Some(e);
                        },
                    }
                }
                i += 1;
            }
            match failed {
                Some(e) => {
                    proof {
                        failed_stays_failed(model, rank, id, i as int, count as int, e);
                    }
                    Err(e)
                },
                None => Ok(ids),
            }
        },
    }
}

proof fn failed_stays_failed(
    store: StoreModel,
    rank: spec_fn(EntityId) -> nat,
    id: EntityId,
    i: int,
    n: int,
    e: EditError,
)
    requires
        i <= n,
        flow_blocks(store, rank, id, i) == Err::<Seq<EntityId>, EditError>(e),
    ensures
        flow_blocks(store, rank, id, n) == Err::<Seq<EntityId>, EditError>(e),
    decreases n - i,
{
    if i < n {
        failed_stays_failed(store, rank, id, i, n - 1, e);
    }
}

/// The blocks of a frame among the children of another.
pub open spec fn sub_frame_blocks(store: StoreModel, sub: EntityId) -> Result<
    Seq<EntityId>,
    EditError,
> {
    match frame_in(store.frames, sub) {
        None => Err(EditError::FrameNotFound),
        Some(frame) => match frame.table {
            Some(table) => flow_list(
                store,
                flow_rank(store),
                cell_frames(store, table),
                cell_frames(store, table).len() as int,
                flow_rank(store)(sub),
            ),
            None => blocks_of_frame(store, sub),
        },
    }
}

/// Collects the blocks of a frame among the children of another.
fn collect_sub_frame(store: &RopeStore, sub: EntityId) -> (res: Result<Vec<EntityId>, EditError>)
    requires
        is_flow(store.deep_view()),
    ensures
        match res {
            Ok(ids) => sub_frame_blocks(store.deep_view(), sub) == Ok::<Seq<EntityId>, EditError>(
                ids@,
            ),
            Err(e) => sub_frame_blocks(store.deep_view(), sub) == Err::<Seq<EntityId>, EditError>(
                e,
            ),
        },
    decreases flow_rank(store.deep_view())(sub), 2int,
{
    let ghost model = store.deep_view();
    let ghost rank = flow_rank(model);
    assert(is_flow_rank(model, rank));
    let table: Option<EntityId> = match find_frame(&store.frames, sub) {
        None => return Err(EditError::FrameNotFound),
        Some(frame) => frame.table,
    };
    let table: EntityId = match table {
        Some(table) => table,
        None => return collect_block_ids_recursive(store, sub),
    };
    let frames = table_cell_frames(store, table);
    let mut ids: Vec<EntityId> = Vec::new();
    let mut failed: Option<EditError> = None;
    let mut i: usize = 0;
    while i < frames.len() && failed.is_none()
        invariant
            model == store.deep_view(),
            rank == flow_rank(model),
            is_flow(model),
            is_flow_rank(model, rank),
            frame_in(model.frames, sub) is Some,
            frame_in(model.frames, sub)->0.table == Some(table),
            frames@ == cell_frames(model, table),
            i <= frames@.len(),
            match failed {
                None => flow_list(model, rank, frames@, i as int, rank(sub)) == Ok::<
                    Seq<EntityId>,
                    EditError,
                >(ids@),
                Some(e) => flow_list(model, rank, frames@, i as int, rank(sub)) == Err::<
                    Seq<EntityId>,
                    EditError,
                >(e),
            },
        decreases frames@.len() - i,
    {
        assert(rank(cell_frames(model, frame_in(model.frames, sub)->0.table->0)[i as int]) < rank(
            sub,
        ));
        match collect_block_ids_recursive(store, frames[i]) {
            Ok(mut more) => {
                ids.append(&mut more);
            },
            Err(e) => {
                failed = Some(e);
            },
        }
        i += 1;
    }
    match failed {
        Some(e) => {
            proof {
                failed_list_stays_failed(
                    model,
                    rank,
                    frames@,
                    i as int,
                    frames@.len() as int,
                    rank(sub),
                    e,
                );
            }
            Err(e)
        },
        None => Ok(ids),
    }
}

proof fn failed_list_stays_failed(
    store: StoreModel,
    rank: spec_fn(EntityId) -> nat,
    ids: Seq<EntityId>,
    i: int,
    n: int,
    bound: nat,
    e: EditError,
)
    requires
        i <= n,
        flow_list(store, rank, ids, i, bound) == Err::<Seq<EntityId>, EditError>(e),
    ensures
        flow_list(store, rank, ids, n, bound) == Err::<Seq<EntityId>, EditError>(e),
    decreases n - i,
{
    if i < n {
        failed_list_stays_failed(store, rank, ids, i, n - 1, bound, e);
    }
}

/// The blocks under ids, those that are there.
pub open spec fn blocks_found(blocks: Map<EntityId, RowModel>, ids: Seq<EntityId>) -> Seq<Block>
    decreases ids.len(),
{
    if ids.len() == 0 {
        Seq::empty()
    } else {
        let rest = blocks_found(blocks, ids.drop_last());
        match block_in(blocks, ids.last()) {
            Some(block) => rest.push(block),
            None => rest,
        }
    }
}

/// The blocks under ids, those that are there, by their position.
pub(crate) fn find_blocks(blocks: &Rows, ids: &Vec<EntityId>) -> (found: Vec<Block>)
    ensures
        found@ == sorted(blocks_found(rows_of(*blocks), ids@)),
{
    let mut found: Vec<Block> = Vec::new();
    for i in 0..ids.len()
        invariant
            found@ == blocks_found(rows_of(*blocks), ids@.take(i as int)),
    {
        assert(ids@.take(i + 1).drop_last() =~= ids@.take(i as int));
        if let Some(block) = find_block(blocks, ids[i]) {
            found.push(block);
        }
    }
    assert(ids@.take(ids@.len() as int) =~= ids@);
    sort(&found)
}

} // verus!
