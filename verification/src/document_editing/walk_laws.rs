//! In which order the blocks of a document are met, stated over its frames and tables.
use vstd::prelude::*;

use crate::database::block_offset_index::stretch_from;
use crate::database::rope_store::{block_text, counter_of, empty_store, StoreModel};
use crate::database::rows::{block_in, frame_in, RowModel};
use crate::document_editing::block_order::{
    blocks_found, blocks_of_frame, cell_frames, cell_ids, cells_found, flow_blocks, flow_list,
    flow_rank, frames_of, is_flow, is_flow_rank, ranks_before, sort_in, sorted,
    sorting_orders_the_items, Ranked,
};
use crate::document_editing::edit_error::EditError;
use crate::document_editing::frames::{child, sub_frame};
use crate::entities::{Block, EntityId, TableCell};
use crate::format_runs_query::position_of;

verus! {

// ─── The flow ────────────────────────────────────────────────────────

/// The blocks of the first children of a frame.
pub open spec fn walked(store: StoreModel, id: EntityId, n: int) -> Result<
    Seq<EntityId>,
    EditError,
> {
    flow_blocks(store, flow_rank(store), id, n)
}

/// The blocks of the first cells of a table that is a child of a frame.
pub open spec fn walked_cells(store: StoreModel, sub: EntityId, table: EntityId, n: int) -> Result<
    Seq<EntityId>,
    EditError,
> {
    flow_list(store, flow_rank(store), cell_frames(store, table), n, flow_rank(store)(sub))
}

/// A frame is walked child by child. An entry above zero is a block; one below zero is a
/// frame, whose blocks come in its place, or those of its cells where it holds a table; and
/// zero is nothing. Where a frame is missing the walk fails.
pub proof fn children_are_walked_in_order(store: StoreModel, id: EntityId, n: int)
    requires
        is_flow(store),
        frame_in(store.frames, id) is Some,
        0 < n <= frame_in(store.frames, id)->0.child_order.len(),
    ensures
        walked(store, id, 0) == Ok::<Seq<EntityId>, EditError>(Seq::empty()),
        blocks_of_frame(store, id) == walked(
            store,
            id,
            frame_in(store.frames, id)->0.child_order.len() as int,
        ),
        walked(store, id, n - 1) is Err ==> walked(store, id, n) == walked(store, id, n - 1),
        walked(store, id, n - 1) is Ok ==> {
            let rest = walked(store, id, n - 1)->Ok_0;
            let entry = frame_in(store.frames, id)->0.child_order[n - 1];
            let sub = (-(entry as int)) as EntityId;
            let found = frame_in(store.frames, sub);
            &&& entry > 0 ==> walked(store, id, n) == Ok::<Seq<EntityId>, EditError>(
                rest + seq![entry as EntityId],
            )
            &&& entry == 0 ==> walked(store, id, n) == Ok::<Seq<EntityId>, EditError>(rest)
            &&& entry < 0 && found is None ==> walked(store, id, n) == Err::<
                Seq<EntityId>,
                EditError,
            >(EditError::FrameNotFound)
            &&& entry < 0 && found is Some ==> {
                let table = found->0.table;
                let more = if table is Some {
                    walked_cells(store, sub, table->0, cell_frames(store, table->0).len() as int)
                } else {
                    blocks_of_frame(store, sub)
                };
                &&& more is Ok ==> walked(store, id, n) == Ok::<Seq<EntityId>, EditError>(
                    rest + more->Ok_0,
                )
                &&& more is Err ==> walked(store, id, n) == Err::<Seq<EntityId>, EditError>(
                    more->Err_0,
                )
            }
        },
{
    let rank = flow_rank(store);
    assert(is_flow_rank(store, rank));
    let entry = child(store.frames, id, n - 1);
    if entry < 0 {
        assert(rank(sub_frame(entry)) < rank(id));
    }
    if let Ok(rest) = walked(store, id, n - 1) {
        assert(rest.push(entry as EntityId) =~= rest + seq![entry as EntityId]);
    }
}

/// The cells of a table are walked one after the other, each as a frame.
pub proof fn cells_are_walked_in_order(
    store: StoreModel,
    sub: EntityId,
    table: EntityId,
    n: int,
)
    requires
        is_flow(store),
        frame_in(store.frames, sub) is Some,
        frame_in(store.frames, sub)->0.table == Some(table),
        0 < n <= cell_frames(store, table).len(),
    ensures
        walked_cells(store, sub, table, 0) == Ok::<Seq<EntityId>, EditError>(Seq::empty()),
        walked_cells(store, sub, table, n - 1) is Err ==> walked_cells(store, sub, table, n)
            == walked_cells(store, sub, table, n - 1),
        walked_cells(store, sub, table, n - 1) is Ok ==> {
            let rest = walked_cells(store, sub, table, n - 1)->Ok_0;
            let more = blocks_of_frame(store, cell_frames(store, table)[n - 1]);
            &&& more is Ok ==> walked_cells(store, sub, table, n) == Ok::<
                Seq<EntityId>,
                EditError,
            >(rest + more->Ok_0)
            &&& more is Err ==> walked_cells(store, sub, table, n) == Err::<
                Seq<EntityId>,
                EditError,
            >(more->Err_0)
        },
{
    let rank = flow_rank(store);
    assert(is_flow_rank(store, rank));
    let k = n - 1;
    assert(rank(cell_frames(store, frame_in(store.frames, sub)->0.table->0)[k]) < rank(sub));
}

// ─── Cells ───────────────────────────────────────────────────────────

proof fn frames_add_up(a: Seq<TableCell>, b: Seq<TableCell>)
    ensures
        frames_of(a + b) == frames_of(a) + frames_of(b),
    decreases b.len(),
{
    if b.len() == 0 {
        assert(a + b =~= a);
        assert(frames_of(a) + frames_of(b) =~= frames_of(a));
    } else {
        frames_add_up(a, b.drop_last());
        assert((a + b).drop_last() =~= a + b.drop_last());
        assert((a + b).last() == b.last());
        assert(frames_of(a + b) =~= frames_of(a) + frames_of(b));
    }
}

/// The frames of cells are those of each in turn; a cell without a frame has none.
pub proof fn cells_give_their_frames(before: Seq<TableCell>, cell: TableCell, behind: Seq<TableCell>)
    ensures
        frames_of(Seq::empty()).len() == 0,
        cell.cell_frame is Some ==> frames_of(before + seq![cell] + behind) == frames_of(before)
            + seq![cell.cell_frame->0] + frames_of(behind),
        cell.cell_frame is None ==> frames_of(before + seq![cell] + behind) == frames_of(before)
            + frames_of(behind),
{
    frames_add_up(before, seq![cell]);
    frames_add_up(before + seq![cell], behind);
    let none = Seq::<TableCell>::empty();
    assert(seq![cell].drop_last() =~= none);
    assert(frames_of(none) =~= Seq::<EntityId>::empty());
    if let Some(id) = cell.cell_frame {
        assert(frames_of(seq![cell]) =~= seq![id]);
    } else {
        assert(frames_of(seq![cell]) =~= Seq::<EntityId>::empty());
        assert(frames_of(before) + Seq::<EntityId>::empty() + frames_of(behind) =~= frames_of(
            before,
        ) + frames_of(behind));
    }
}

/// The cells of a table are met row by row, and in a row column by column.
pub proof fn cells_come_row_by_row(store: StoreModel, table: EntityId, i: int, j: int)
    ensures
        ({
            let found = cells_found(store.table_cells, cell_ids(store.tables, table));
            let cells = sorted(found);
            &&& cell_frames(store, table) == frames_of(cells)
            &&& cells.to_multiset() == found.to_multiset()
            &&& 0 <= i < j < cells.len() ==> cells[i].row < cells[j].row || (cells[i].row
                == cells[j].row && cells[i].column <= cells[j].column)
        }),
{
    let found = cells_found(store.table_cells, cell_ids(store.tables, table));
    sorting_orders_the_items(found);
    if 0 <= i < j < sorted(found).len() {
        assert(!ranks_before(sorted(found)[j].rank(), sorted(found)[i].rank()));
    }
}

/// One id more finds its row behind those before, where there is one of the kind.
pub proof fn rows_are_found_by_id(
    rows: Map<EntityId, RowModel>,
    ids: Seq<EntityId>,
    id: EntityId,
    cell: TableCell,
    block: Block,
)
    ensures
        cells_found(rows, Seq::empty()).len() == 0,
        blocks_found(rows, Seq::empty()).len() == 0,
        rows.dom().contains(id) && rows[id] == RowModel::TableCell(cell) ==> cells_found(
            rows,
            ids.push(id),
        ) == cells_found(rows, ids) + seq![cell],
        !rows.dom().contains(id) || !(rows[id] is TableCell) ==> cells_found(rows, ids.push(id))
            == cells_found(rows, ids),
        rows.dom().contains(id) && rows[id] == RowModel::Block(block) ==> blocks_found(
            rows,
            ids.push(id),
        ) == blocks_found(rows, ids) + seq![block],
        !rows.dom().contains(id) || !(rows[id] is Block) ==> blocks_found(rows, ids.push(id))
            == blocks_found(rows, ids),
{
    assert(ids.push(id).drop_last() =~= ids);
    assert(block_in(rows, id) is Some <==> rows.dom().contains(id) && rows[id] is Block);
}

// ─── Sorting ─────────────────────────────────────────────────────────

proof fn sort_in_places<T: Ranked>(items: Seq<T>, item: T) -> (k: int)
    requires
        forall|i: int, j: int|
            0 <= i < j < items.len() ==> !ranks_before(
                (#[trigger] items[j]).rank(),
                (#[trigger] items[i]).rank(),
            ),
    ensures
        0 <= k <= items.len(),
        sort_in(items, item) == items.insert(k, item),
        forall|i: int| 0 <= i < k ==> !ranks_before(item.rank(), (#[trigger] items[i]).rank()),
        forall|i: int|
            k <= i < items.len() ==> ranks_before(item.rank(), (#[trigger] items[i]).rank()),
    decreases items.len(),
{
    if items.len() == 0 || !ranks_before(item.rank(), items.last().rank()) {
        assert(items.push(item) =~= items.insert(items.len() as int, item));
        assert forall|i: int| 0 <= i < items.len() implies !ranks_before(
            item.rank(),
            (#[trigger] items[i]).rank(),
        ) by {
            if i < items.len() - 1 {
                assert(!ranks_before(items[items.len() - 1].rank(), items[i].rank()));
            }
        }
        items.len() as int
    } else {
        let less = items.drop_last();
        assert forall|i: int, j: int| 0 <= i < j < less.len() implies !ranks_before(
            (#[trigger] less[j]).rank(),
            (#[trigger] less[i]).rank(),
        ) by {
            assert(!ranks_before(items[j].rank(), items[i].rank()));
        }
        let k = sort_in_places(less, item);
        assert(less.insert(k, item).push(items.last()) =~= items.insert(k, item));
        assert forall|i: int| 0 <= i < k implies !ranks_before(
            item.rank(),
            (#[trigger] items[i]).rank(),
        ) by {
            assert(less[i] == items[i]);
        }
        assert forall|i: int| k <= i < items.len() implies ranks_before(
            item.rank(),
            (#[trigger] items[i]).rank(),
        ) by {
            if i < less.len() {
                assert(less[i] == items[i]);
            }
        }
        k
    }
}

/// Sorting is stable: one item more stands behind all of its rank and before all of a
/// higher one, and the others keep their order.
pub proof fn equals_keep_their_order<T: Ranked>(items: Seq<T>, item: T) -> (k: int)
    ensures
        0 <= k <= sorted(items).len(),
        sorted(items.push(item)) == sorted(items).insert(k, item),
        forall|i: int|
            0 <= i < k ==> !ranks_before(item.rank(), (#[trigger] sorted(items)[i]).rank()),
        forall|i: int|
            k <= i < sorted(items).len() ==> ranks_before(
                item.rank(),
                (#[trigger] sorted(items)[i]).rank(),
            ),
{
    assert(items.push(item).drop_last() =~= items);
    sorting_orders_the_items(items);
    sort_in_places(sorted(items), item)
}

// ─── Positions ───────────────────────────────────────────────────────

/// Whether a stretch is the first of a block.
pub open spec fn is_stretch_of(store: StoreModel, id: EntityId, k: int) -> bool {
    &&& 0 <= k < store.block_offsets.len()
    &&& store.block_offsets[k].block_id == id
    &&& forall|i: int| 0 <= i < k ==> (#[trigger] store.block_offsets[i]).block_id != id
}

proof fn stretch_is(store: StoreModel, id: EntityId, i: int, k: int)
    requires
        is_stretch_of(store, id, k),
        0 <= i <= k,
    ensures
        stretch_from(store.block_offsets, id, i) == Some(k),
    decreases k - i,
{
    if i < k {
        assert(store.block_offsets[i].block_id != id);
        stretch_is(store, id, i + 1, k);
    }
}

proof fn stretch_is_missing(store: StoreModel, id: EntityId, i: int)
    requires
        0 <= i,
        forall|j: int|
            0 <= j < store.block_offsets.len() ==> (#[trigger] store.block_offsets[j]).block_id
                != id,
    ensures
        stretch_from(store.block_offsets, id, i) is None,
    decreases store.block_offsets.len() - i,
{
    if i < store.block_offsets.len() {
        assert(store.block_offsets[i].block_id != id);
        stretch_is_missing(store, id, i + 1);
    }
}

/// A block that the text holds begins where its stretch does, and its text is that of the
/// stretch. One that it does not hold begins where its row says, and has no text.
pub proof fn blocks_stand_where_the_text_holds_them(store: StoreModel, block: Block, k: int)
    ensures
        is_stretch_of(store, block.id, k) ==> {
            let stretch = store.block_offsets[k];
            &&& position_of(store, block) == stretch.start
            &&& block_text(store, block.id) == store.text.subrange(
                stretch.start as int,
                stretch.start + stretch.len,
            )
        },
        (forall|j: int|
            0 <= j < store.block_offsets.len() ==> (#[trigger] store.block_offsets[j]).block_id
                != block.id) ==> {
            &&& position_of(store, block) == block.document_position
            &&& block_text(store, block.id).len() == 0
        },
{
    if is_stretch_of(store, block.id, k) {
        stretch_is(store, block.id, 0, k);
    }
    if forall|j: int|
        0 <= j < store.block_offsets.len() ==> (#[trigger] store.block_offsets[j]).block_id
            != block.id {
        stretch_is_missing(store, block.id, 0);
    }
}

/// A new store holds nothing, and the first id that it gives out is one.
pub proof fn a_new_store_is_empty(entity: Seq<char>, id: EntityId)
    ensures
        empty_store().text.len() == 0,
        !empty_store().roots.dom().contains(id),
        !empty_store().documents.dom().contains(id),
        !empty_store().frames.dom().contains(id),
        !empty_store().blocks.dom().contains(id),
        !empty_store().lists.dom().contains(id),
        !empty_store().resources.dom().contains(id),
        !empty_store().tables.dom().contains(id),
        !empty_store().table_cells.dom().contains(id),
        !empty_store().format_runs.dom().contains(id),
        !empty_store().block_images.dom().contains(id),
        !empty_store().block_footnote_refs.dom().contains(id),
        empty_store().footnote_markers.len() == 0,
        empty_store().block_offsets.len() == 0,
        counter_of(empty_store().counters, entity) == 1,
{
}

} // verus!
