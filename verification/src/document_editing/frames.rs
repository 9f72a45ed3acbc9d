//! The frame tree of a document, and the steps that edits of it are made of.
use vstd::prelude::*;

use crate::database::rope_store::{counter_of, RopeStore, StoreModel};
use crate::database::rows::{
    document_in, drop_row, find_document, find_frame, find_root, frame_in, put_row, root_in,
    rows_of, Row, RowModel, Rows,
};
use crate::document_editing::edit_error::EditError;
use crate::entities::{
    copy_list, Document, DocumentModel, EntityId, Frame, FrameModel, ROOT_ENTITY_ID,
};
use crate::models::group_deep_view;
use crate::order::with_entry;

verus! {

broadcast use group_deep_view;

/// The document of the store.
pub open spec fn located_document(store: StoreModel) -> Result<EntityId, EditError> {
    match root_in(store.roots, ROOT_ENTITY_ID) {
        None => Err(EditError::RootNotFound),
        Some(root) => if root.documents.len() == 0 {
            Err(EditError::RootHasNoDocument)
        } else if document_in(store.documents, root.documents[0]) is None {
            Err(EditError::DocumentNotFound)
        } else {
            Ok(root.documents[0])
        },
    }
}

/// The frame that holds the flow of a document.
pub open spec fn first_frame(store: StoreModel, doc_id: EntityId) -> Result<EntityId, EditError> {
    match document_in(store.documents, doc_id) {
        None => Err(EditError::DocumentNotFound),
        Some(document) => if document.frames.len() == 0 {
            Err(EditError::DocumentHasNoFrames)
        } else {
            Ok(document.frames[0])
        },
    }
}

/// The document of the store.
pub(crate) fn locate_document(store: &RopeStore) -> (res: Result<EntityId, EditError>)
    ensures
        res == located_document(store.deep_view()),
{
    match find_root(&store.roots, ROOT_ENTITY_ID) {
        None => Err(EditError::RootNotFound),
        Some(root) => {
            if root.documents.len() == 0 {
                return Err(EditError::RootHasNoDocument);
            }
            let id: EntityId = root.documents[0];
            if find_document(&store.documents, id).is_none() {
                return Err(EditError::DocumentNotFound);
            }
            Ok(id)
        },
    }
}

/// The frame that holds the flow of a document.
pub(crate) fn find_first_frame(store: &RopeStore, doc_id: EntityId) -> (res: Result<
    EntityId,
    EditError,
>)
    ensures
        res == first_frame(store.deep_view(), doc_id),
{
    match find_document(&store.documents, doc_id) {
        None => Err(EditError::DocumentNotFound),
        Some(document) => {
            if document.frames.len() == 0 {
                Err(EditError::DocumentHasNoFrames)
            } else {
                Ok(document.frames[0])
            }
        },
    }
}

/// The frame that an entry below zero stands for.
pub open spec fn sub_frame(entry: i64) -> EntityId {
    (-(entry as int)) as EntityId
}

/// The frame that an entry below zero stands for.
pub(crate) fn sub_frame_id(entry: i64) -> (id: EntityId)
    requires
        entry < 0,
    ensures
        id == sub_frame(entry),
{
    (-(entry as i128)) as u64
}

/// The number of children of a frame.
pub open spec fn child_count(frames: Map<EntityId, RowModel>, id: EntityId) -> int {
    match frame_in(frames, id) {
        Some(frame) => frame.child_order.len() as int,
        None => 0,
    }
}

/// The `k`-th child of a frame.
pub open spec fn child(frames: Map<EntityId, RowModel>, id: EntityId, k: int) -> i64 {
    frame_in(frames, id)->0.child_order[k]
}

/// Whether every frame ranks above the frames it holds.
pub open spec fn is_rank(frames: Map<EntityId, RowModel>, rank: spec_fn(EntityId) -> nat) -> bool {
    forall|id: EntityId, k: int|
        0 <= k < child_count(frames, id) && #[trigger] child(frames, id, k) < 0 ==> rank(
            sub_frame(child(frames, id, k)),
        ) < rank(id)
}

/// Whether no frame holds itself, at any depth.
pub open spec fn is_forest(frames: Map<EntityId, RowModel>) -> bool {
    exists|rank: spec_fn(EntityId) -> nat| is_rank(frames, rank)
}

/// Ranks by which every frame ranks above the frames it holds.
pub open spec fn rank_in(frames: Map<EntityId, RowModel>) -> spec_fn(EntityId) -> nat {
    choose|rank: spec_fn(EntityId) -> nat| is_rank(frames, rank)
}

/// The frame under `id`, or under a frame that it holds, whose children from the
/// `i`-th on have the block `target` among them. The children are searched in
/// order, a frame before what stands behind it.
pub open spec fn owner_from(
    frames: Map<EntityId, RowModel>,
    rank: spec_fn(EntityId) -> nat,
    id: EntityId,
    target: i64,
    i: int,
) -> Result<Option<EntityId>, EditError>
    decreases rank(id), child_count(frames, id) - i,
{
    if frame_in(frames, id) is None {
        Err(EditError::FrameNotFound)
    } else if i < 0 || i >= child_count(frames, id) {
        Ok(None)
    } else {
        let entry = child(frames, id, i);
        if entry > 0 && entry == target {
            Ok(Some(id))
        } else if entry < 0 && rank(sub_frame(entry)) < rank(id) {
            match owner_from(frames, rank, sub_frame(entry), target, 0) {
                Ok(None) => owner_from(frames, rank, id, target, i + 1),
                found => found,
            }
        } else {
            owner_from(frames, rank, id, target, i + 1)
        }
    }
}

/// The frame whose children have a block among them.
pub open spec fn owner_of(
    frames: Map<EntityId, RowModel>,
    root: EntityId,
    target: i64,
) -> Result<Option<EntityId>, EditError> {
    owner_from(frames, rank_in(frames), root, target, 0)
}

/// Walk the frame tree under `root_id` to find which frame's
/// `child_order` contains the positive entry `target`.
pub fn find_block_owner_frame(store: &RopeStore, root_id: EntityId, target: i64) -> (res: Result<
    Option<EntityId>,
    EditError,
>)
    requires
        is_forest(store.deep_view().frames),
    ensures
        res == owner_of(store.deep_view().frames, root_id, target),
    decreases rank_in(store.deep_view().frames)(root_id),
{
    let ghost frames = store.deep_view().frames;
    let ghost rank = rank_in(frames);
    assert(is_rank(frames, rank));
    match find_frame(&store.frames, root_id) {
        None => Err(EditError::FrameNotFound),
        Some(frame) => {
            let count: usize = frame.child_order.len();
            for i in 0..count
                invariant
                    frames == store.deep_view().frames,
                    rank == rank_in(frames),
                    is_forest(frames),
                    is_rank(frames, rank),
                    frame_in(frames, root_id) == Some(frame.deep_view()),
                    count == frame.child_order@.len(),
                    owner_of(frames, root_id, target) == owner_from(
                        frames,
                        rank,
                        root_id,
                        target,
                        i as int,
                    ),
            {
                let entry: i64 = frame.child_order[i];
                assert(child(frames, root_id, i as int) == entry);
                if entry > 0 && entry == target {
                    return Ok(Some(root_id));
                }
                if entry < 0 {
                    let found = find_block_owner_frame(store, sub_frame_id(entry), target);
                    match found {
                        Ok(None) => {},
                        _ => {
                            return found;
                        },
                    }
                }
            }
            Ok(None)
        },
    }
}

/// The first position of an entry from `i` on.
pub open spec fn entry_from(entries: Seq<i64>, entry: int, i: int) -> Option<int>
    decreases entries.len() - i,
{
    if i < 0 || i >= entries.len() {
        None
    } else if entries[i] == entry {
        Some(i)
    } else {
        entry_from(entries, entry, i + 1)
    }
}

/// The first position of an entry.
pub open spec fn entry_at(entries: Seq<i64>, entry: int) -> Option<int> {
    entry_from(entries, entry, 0)
}

/// The first position of an entry.
pub(crate) fn find_entry(entries: &Vec<i64>, entry: i64) -> (at: Option<usize>)
    ensures
        match at {
            Some(i) => entry_at(entries@, entry as int) == Some(i as int) && i < entries@.len()
                && entries@[i as int] == entry,
            None => entry_at(entries@, entry as int) is None,
        },
{
    for i in 0..entries.len()
        invariant
            entry_at(entries@, entry as int) == entry_from(entries@, entry as int, i as int),
    {
        if entries[i] == entry {
            return Some(i);
        }
    }
    None
}

/// The blocks among entries.
pub open spec fn blocks_in(entries: Seq<i64>) -> Seq<EntityId>
    decreases entries.len(),
{
    if entries.len() == 0 {
        Seq::empty()
    } else {
        let rest = blocks_in(entries.drop_last());
        if entries.last() > 0 {
            rest.push(entries.last() as EntityId)
        } else {
            rest
        }
    }
}

/// The blocks among entries.
pub(crate) fn collect_block_ids(entries: &Vec<i64>) -> (blocks: Vec<EntityId>)
    ensures
        blocks@ == blocks_in(entries@),
{
    let mut blocks: Vec<EntityId> = Vec::new();
    for i in 0..entries.len()
        invariant
            blocks@ == blocks_in(entries@.take(i as int)),
    {
        assert(entries@.take(i + 1).drop_last() =~= entries@.take(i as int));
        if entries[i] > 0 {
            blocks.push(entries[i] as EntityId);
        }
    }
    assert(entries@.take(entries@.len() as int) =~= entries@);
    blocks
}

/// A copy of the entries between two positions.
pub(crate) fn entries_between(entries: &Vec<i64>, start: usize, end: usize) -> (part: Vec<i64>)
    requires
        start <= end <= entries@.len(),
    ensures
        part@ == entries@.subrange(start as int, end as int),
{
    let mut part: Vec<i64> = Vec::new();
    for i in start..end
        invariant
            start <= end <= entries@.len(),
            part@ == entries@.subrange(start as int, i as int),
    {
        part.push(entries[i]);
        assert(entries@.subrange(start as int, i + 1) =~= entries@.subrange(
            start as int,
            i as int,
        ).push(entries@[i as int]));
    }
    part
}

/// Entries with those between two positions replaced.
pub open spec fn spliced_entries(
    entries: Seq<i64>,
    start: int,
    end: int,
    replacement: Seq<i64>,
) -> Seq<i64> {
    entries.take(start) + replacement + entries.skip(end)
}

/// Entries with those between two positions replaced.
pub(crate) fn splice_entries(
    entries: &Vec<i64>,
    start: usize,
    end: usize,
    replacement: &Vec<i64>,
) -> (new: Vec<i64>)
    requires
        start <= end <= entries@.len(),
    ensures
        new@ == spliced_entries(entries@, start as int, end as int, replacement@),
{
    let mut new = entries_between(entries, 0, start);
    let mut middle = copy_list(replacement);
    let mut tail = entries_between(entries, end, entries.len());
    assert(new@ =~= entries@.take(start as int));
    assert(tail@ =~= entries@.skip(end as int));
    new.append(&mut middle);
    new.append(&mut tail);
    new
}

/// The frames with those among entries moved under a parent.
pub open spec fn reparented(
    frames: Map<EntityId, RowModel>,
    entries: Seq<i64>,
    parent: EntityId,
    now: i64,
) -> Map<EntityId, RowModel>
    decreases entries.len(),
{
    if entries.len() == 0 {
        frames
    } else {
        let rest = reparented(frames, entries.drop_last(), parent, now);
        let entry = entries.last();
        if entry < 0 && frame_in(rest, sub_frame(entry)) is Some {
            rest.insert(
                sub_frame(entry),
                RowModel::Frame(
                    FrameModel {
                        parent_frame: Some(parent),
                        updated_at: now,
                        ..frame_in(rest, sub_frame(entry))->0
                    },
                ),
            )
        } else {
            rest
        }
    }
}

/// Moves the frames among entries under a parent.
pub(crate) fn reparent(frames: &mut Rows, entries: &Vec<i64>, parent: EntityId, now: i64)
    ensures
        rows_of(*final(frames)) == reparented(rows_of(*old(frames)), entries@, parent, now),
{
    let ghost start = rows_of(*frames);
    for i in 0..entries.len()
        invariant
            rows_of(*frames) == reparented(start, entries@.take(i as int), parent, now),
    {
        assert(entries@.take(i + 1).drop_last() =~= entries@.take(i as int));
        let entry: i64 = entries[i];
        if entry < 0 {
            let id: EntityId = sub_frame_id(entry);
            let found: Option<Frame> = match find_frame(frames, id) {
                Some(frame) => Some(frame.clone()),
                None => None,
            };
            if let Some(mut frame) = found {
                frame.parent_frame = Some(parent);
                frame.updated_at = now;
                put_row(frames, id, Row::Frame(frame));
            }
        }
    }
    assert(entries@.take(entries@.len() as int) =~= entries@);
}

/// The store with a new frame at the end of a document's frames.
pub open spec fn with_new_frame(
    store: StoreModel,
    doc_id: EntityId,
    frame: FrameModel,
) -> StoreModel {
    let id = counter_of(store.counters, "frame"@);
    let document = document_in(store.documents, doc_id)->0;
    StoreModel {
        counters: with_entry(store.counters, "frame"@, (id + 1) as u64),
        frames: store.frames.insert(id, RowModel::Frame(FrameModel { id, ..frame })),
        documents: store.documents.insert(
            doc_id,
            RowModel::Document(
                DocumentModel { frames: document.frames.push(id), ..document },
            ),
        ),
        ..store
    }
}

/// Adds a new frame at the end of a document's frames. Returns its id.
pub(crate) fn create_frame(store: &mut RopeStore, doc_id: EntityId, frame: Frame) -> (id: EntityId)
    requires
        document_in(old(store).deep_view().documents, doc_id) is Some,
        counter_of(old(store).deep_view().counters, "frame"@) < u64::MAX,
    ensures
        id == counter_of(old(store).deep_view().counters, "frame"@),
        final(store).deep_view() == with_new_frame(
            old(store).deep_view(),
            doc_id,
            frame.deep_view(),
        ),
        final(store).saved() == old(store).saved(),
        final(store).next_saved() == old(store).next_saved(),
{
    let ghost before = store.deep_view();
    let ghost template = frame.deep_view();
    let id: EntityId = store.next_id("frame");
    let mut frame = frame;
    frame.id = id;
    put_row(&mut store.frames, id, Row::Frame(frame));
    let found: Option<Document> = match find_document(&store.documents, doc_id) {
        Some(document) => Some(document.clone()),
        None => None,
    };
    if let Some(mut document) = found {
        document.frames.push(id);
        put_row(&mut store.documents, doc_id, Row::Document(document));
    }
    assert(store.deep_view() =~= with_new_frame(before, doc_id, template));
    id
}

/// Ids without one.
pub open spec fn without_id(ids: Seq<EntityId>, id: EntityId) -> Seq<EntityId>
    decreases ids.len(),
{
    if ids.len() == 0 {
        ids
    } else if ids.last() == id {
        without_id(ids.drop_last(), id)
    } else {
        without_id(ids.drop_last(), id).push(ids.last())
    }
}

/// Ids without one.
pub(crate) fn remove_id(ids: &Vec<EntityId>, id: EntityId) -> (kept: Vec<EntityId>)
    ensures
        kept@ == without_id(ids@, id),
{
    let mut kept: Vec<EntityId> = Vec::new();
    for i in 0..ids.len()
        invariant
            kept@ == without_id(ids@.take(i as int), id),
    {
        assert(ids@.take(i + 1).drop_last() =~= ids@.take(i as int));
        if ids[i] != id {
            kept.push(ids[i]);
        }
    }
    assert(ids@.take(ids@.len() as int) =~= ids@);
    kept
}

/// The store without a frame, which is also none of a document's frames.
pub open spec fn without_frame(store: StoreModel, doc_id: EntityId, id: EntityId) -> StoreModel {
    let document = document_in(store.documents, doc_id)->0;
    StoreModel {
        frames: store.frames.remove(id),
        documents: store.documents.insert(
            doc_id,
            RowModel::Document(
                DocumentModel { frames: without_id(document.frames, id), ..document },
            ),
        ),
        ..store
    }
}

/// Removes a frame that holds nothing.
pub(crate) fn remove_frame(store: &mut RopeStore, doc_id: EntityId, id: EntityId)
    requires
        document_in(old(store).deep_view().documents, doc_id) is Some,
    ensures
        final(store).deep_view() == without_frame(old(store).deep_view(), doc_id, id),
        final(store).saved() == old(store).saved(),
        final(store).next_saved() == old(store).next_saved(),
{
    let ghost before = store.deep_view();
    drop_row(&mut store.frames, id);
    let found: Option<Document> = match find_document(&store.documents, doc_id) {
        Some(document) => Some(document.clone()),
        None => None,
    };
    if let Some(mut document) = found {
        document.frames = remove_id(&document.frames, id);
        put_row(&mut store.documents, doc_id, Row::Document(document));
    }
    assert(store.deep_view() =~= without_frame(before, doc_id, id));
}

/// Ids with those of others that are not among them behind them.
pub open spec fn with_ids(ids: Seq<EntityId>, others: Seq<EntityId>) -> Seq<EntityId>
    decreases others.len(),
{
    if others.len() == 0 {
        ids
    } else {
        let rest = with_ids(ids, others.drop_last());
        if rest.contains(others.last()) {
            rest
        } else {
            rest.push(others.last())
        }
    }
}

/// Whether ids have one among them.
pub(crate) fn contains_id(ids: &Vec<EntityId>, id: EntityId) -> (found: bool)
    ensures
        found == ids@.contains(id),
{
    for i in 0..ids.len()
        invariant
            forall|j: int| 0 <= j < i ==> #[trigger] ids@[j] != id,
    {
        if ids[i] == id {
            assert(ids@[i as int] == id);
            return true;
        }
    }
    false
}

/// Puts those of others that are not among ids behind them.
pub(crate) fn add_ids(ids: &mut Vec<EntityId>, others: &Vec<EntityId>)
    ensures
        final(ids)@ == with_ids(old(ids)@, others@),
{
    let ghost start = ids@;
    for i in 0..others.len()
        invariant
            ids@ == with_ids(start, others@.take(i as int)),
    {
        assert(others@.take(i + 1).drop_last() =~= others@.take(i as int));
        if !contains_id(ids, others[i]) {
            ids.push(others[i]);
        }
    }
    assert(others@.take(others@.len() as int) =~= others@);
}

/// Ids that are not among others.
pub open spec fn ids_not_in(ids: Seq<EntityId>, others: Seq<EntityId>) -> Seq<EntityId>
    decreases ids.len(),
{
    if ids.len() == 0 {
        ids
    } else {
        let rest = ids_not_in(ids.drop_last(), others);
        if others.contains(ids.last()) {
            rest
        } else {
            rest.push(ids.last())
        }
    }
}

/// Ids that are not among others.
pub(crate) fn drop_ids(ids: &Vec<EntityId>, others: &Vec<EntityId>) -> (kept: Vec<EntityId>)
    ensures
        kept@ == ids_not_in(ids@, others@),
{
    let mut kept: Vec<EntityId> = Vec::new();
    for i in 0..ids.len()
        invariant
            kept@ == ids_not_in(ids@.take(i as int), others@),
    {
        assert(ids@.take(i + 1).drop_last() =~= ids@.take(i as int));
        if !contains_id(others, ids[i]) {
            kept.push(ids[i]);
        }
    }
    assert(ids@.take(ids@.len() as int) =~= ids@);
    kept
}

/// Whether the ids of the frames, and the next one, can be negated into entries.
pub open spec fn frame_ids_fit(store: StoreModel) -> bool {
    &&& counter_of(store.counters, "frame"@) <= i64::MAX
    &&& forall|id: EntityId| #[trigger] store.frames.dom().contains(id) ==> id <= i64::MAX
}

proof fn owner_from_needs_a_block(
    frames: Map<EntityId, RowModel>,
    rank: spec_fn(EntityId) -> nat,
    id: EntityId,
    target: i64,
    i: int,
)
    ensures
        owner_from(frames, rank, id, target, i) matches Ok(Some(owner)) ==> target > 0
            && frame_in(frames, owner) is Some,
    decreases rank(id), child_count(frames, id) - i,
{
    if frame_in(frames, id) is Some && 0 <= i < child_count(frames, id) {
        let entry = child(frames, id, i);
        if !(entry > 0 && entry == target) {
            if entry < 0 && rank(sub_frame(entry)) < rank(id) {
                owner_from_needs_a_block(frames, rank, sub_frame(entry), target, 0);
            }
            owner_from_needs_a_block(frames, rank, id, target, i + 1);
        }
    }
}

/// Only a block is found in a frame, and only in a frame that is there.
pub proof fn owner_needs_a_block(
    frames: Map<EntityId, RowModel>,
    root: EntityId,
    target: i64,
)
    ensures
        owner_of(frames, root, target) matches Ok(Some(owner)) ==> target > 0 && frame_in(
            frames,
            owner,
        ) is Some,
{
    owner_from_needs_a_block(frames, rank_in(frames), root, target, 0);
}

} // verus!
