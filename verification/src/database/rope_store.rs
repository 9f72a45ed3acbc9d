//! The storage backend.
//!
//! Holds character data in a single document-wide rope, with structural entities
//! (frames, tables, lists, resources) in persistent tables and per-block character
//! formatting in `format_runs`.
use std::collections::HashMap;

use ropey::Rope;
use vstd::prelude::*;

use crate::database::block_offset_index::{
    stretch_of, stretched, stretches_fit, BlockOffset, BlockOffsetIndex,
};
use crate::database::rows::{copy_rows, no_rows, rows_of, RowModel, Rows};
use crate::entities::EntityId;
use crate::models::group_deep_view;
use crate::order::{lookup, with_entry, TextMap};

verus! {

broadcast use {group_deep_view, vstd::std_specs::hash::group_hash_axioms};

/// The rope of the ropey crate.
#[verifier::external_type_specification]
#[verifier::external_body]
pub struct ExRope(Rope);

/// The text that a rope holds.
pub uninterp spec fn rope_text(rope: Rope) -> Seq<char>;

/// `Rope::new` is a rope without text.
#[verifier::external_body]
fn no_text() -> (rope: Rope)
    ensures
        rope_text(rope).len() == 0,
{
    Rope::new()
}

/// `Rope::clone` is a rope of the same text.
#[verifier::external_body]
fn copy_text(rope: &Rope) -> (copy: Rope)
    ensures
        rope_text(copy) == rope_text(*rope),
{
    rope.clone()
}

/// `Rope::len_chars` is the number of characters of the text.
#[verifier::external_body]
pub(crate) fn text_len(rope: &Rope) -> (len: usize)
    ensures
        len == rope_text(*rope).len(),
{
    rope.len_chars()
}

/// `Rope::insert` puts text before the character at an index. It panics where the
/// index is past the end.
#[verifier::external_body]
fn insert_text(rope: &mut Rope, at: usize, text: &str)
    requires
        at <= rope_text(*old(rope)).len(),
    ensures
        rope_text(*final(rope)) == rope_text(*old(rope)).take(at as int) + text@ + rope_text(
            *old(rope),
        ).skip(at as int),
{
    rope.insert(at, text)
}

/// `Rope::slice` is the text between two characters. It panics where the range is
/// reversed or past the end.
#[verifier::external_body]
fn slice_text(rope: &Rope, start: usize, end: usize) -> (text: String)
    requires
        start <= end <= rope_text(*rope).len(),
    ensures
        text@ == rope_text(*rope).subrange(start as int, end as int),
{
    rope.slice(start..end).to_string()
}

/// What a store holds, but for its savepoints.
#[verifier::ext_equal]
pub struct StoreModel {
    pub text: Seq<char>,
    pub roots: Map<EntityId, RowModel>,
    pub documents: Map<EntityId, RowModel>,
    pub frames: Map<EntityId, RowModel>,
    pub blocks: Map<EntityId, RowModel>,
    pub lists: Map<EntityId, RowModel>,
    pub resources: Map<EntityId, RowModel>,
    pub tables: Map<EntityId, RowModel>,
    pub table_cells: Map<EntityId, RowModel>,
    pub format_runs: Map<EntityId, RowModel>,
    pub block_images: Map<EntityId, RowModel>,
    pub block_footnote_refs: Map<EntityId, RowModel>,
    pub footnote_markers: Seq<(Seq<char>, Seq<char>)>,
    pub block_offsets: Seq<BlockOffset>,
    pub counters: Seq<(Seq<char>, u64)>,
}

/// The store that holds nothing.
pub open spec fn empty_store() -> StoreModel {
    StoreModel {
        text: Seq::empty(),
        roots: Map::empty(),
        documents: Map::empty(),
        frames: Map::empty(),
        blocks: Map::empty(),
        lists: Map::empty(),
        resources: Map::empty(),
        tables: Map::empty(),
        table_cells: Map::empty(),
        format_runs: Map::empty(),
        block_images: Map::empty(),
        block_footnote_refs: Map::empty(),
        footnote_markers: Seq::empty(),
        block_offsets: Seq::empty(),
        counters: Seq::empty(),
    }
}

/// A snapshot, cheap to copy: the rope and the tables share what they have in
/// common with the store's.
pub struct RopeStoreSnapshot {
    pub(crate) rope: Rope,
    pub(crate) roots: Rows,
    pub(crate) documents: Rows,
    pub(crate) frames: Rows,
    pub(crate) blocks: Rows,
    pub(crate) lists: Rows,
    pub(crate) resources: Rows,
    pub(crate) tables: Rows,
    pub(crate) table_cells: Rows,
    pub(crate) format_runs: Rows,
    pub(crate) block_images: Rows,
    pub(crate) block_footnote_refs: Rows,
    pub(crate) footnote_markers: TextMap<String>,
    pub(crate) block_offsets: BlockOffsetIndex,
    pub(crate) counters: TextMap<u64>,
}

impl DeepView for RopeStoreSnapshot {
    type V = StoreModel;

    closed spec fn deep_view(&self) -> StoreModel {
        StoreModel {
            text: rope_text(self.rope),
            roots: rows_of(self.roots),
            documents: rows_of(self.documents),
            frames: rows_of(self.frames),
            blocks: rows_of(self.blocks),
            lists: rows_of(self.lists),
            resources: rows_of(self.resources),
            tables: rows_of(self.tables),
            table_cells: rows_of(self.table_cells),
            format_runs: rows_of(self.format_runs),
            block_images: rows_of(self.block_images),
            block_footnote_refs: rows_of(self.block_footnote_refs),
            footnote_markers: self.footnote_markers.deep_view(),
            block_offsets: self.block_offsets@,
            counters: self.counters.deep_view(),
        }
    }
}

impl Clone for RopeStoreSnapshot {
    fn clone(&self) -> (copy: Self)
        ensures
            copy.deep_view() == self.deep_view(),
    {
        RopeStoreSnapshot {
            rope: copy_text(&self.rope),
            roots: copy_rows(&self.roots),
            documents: copy_rows(&self.documents),
            frames: copy_rows(&self.frames),
            blocks: copy_rows(&self.blocks),
            lists: copy_rows(&self.lists),
            resources: copy_rows(&self.resources),
            tables: copy_rows(&self.tables),
            table_cells: copy_rows(&self.table_cells),
            format_runs: copy_rows(&self.format_runs),
            block_images: copy_rows(&self.block_images),
            block_footnote_refs: copy_rows(&self.block_footnote_refs),
            footnote_markers: self.footnote_markers.copy(),
            block_offsets: self.block_offsets.copy(),
            counters: self.counters.copy(),
        }
    }
}

/// A snapshot whose contents only a store looks at.
pub struct StoreSnapshot {
    snapshot: RopeStoreSnapshot,
}

impl DeepView for StoreSnapshot {
    type V = StoreModel;

    closed spec fn deep_view(&self) -> StoreModel {
        self.snapshot.deep_view()
    }
}

impl Clone for StoreSnapshot {
    fn clone(&self) -> (copy: Self)
        ensures
            copy.deep_view() == self.deep_view(),
    {
        StoreSnapshot { snapshot: self.snapshot.clone() }
    }
}

/// The store.
pub struct RopeStore {
    /// Character content, shared across all blocks, including cells.
    pub rope: Rope,
    pub roots: Rows,
    pub documents: Rows,
    pub frames: Rows,
    pub blocks: Rows,
    pub lists: Rows,
    pub resources: Rows,
    pub tables: Rows,
    pub table_cells: Rows,
    pub format_runs: Rows,
    pub block_images: Rows,
    /// Footnote references anchored in each block, byte-ordered. Beside
    /// `block_images` rather than merged with it: the two are written by different
    /// editing paths.
    pub block_footnote_refs: Rows,
    /// Host-supplied markers by footnote label: what a reference *prints*.
    /// Presentation-only. Empty means "number them yourself".
    pub footnote_markers: TextMap<String>,
    /// Document-wide block ordering (sorted by rope position).
    pub block_offsets: BlockOffsetIndex,
    /// Id counters, by entity name. Never restored by undo (only by transaction
    /// rollback).
    pub counters: TextMap<u64>,
    /// Savepoints (in-memory, transaction-scoped).
    pub savepoints: HashMap<u64, RopeStoreSnapshot>,
    pub next_savepoint_id: u64,
}

impl DeepView for RopeStore {
    type V = StoreModel;

    open spec fn deep_view(&self) -> StoreModel {
        StoreModel {
            text: rope_text(self.rope),
            roots: rows_of(self.roots),
            documents: rows_of(self.documents),
            frames: rows_of(self.frames),
            blocks: rows_of(self.blocks),
            lists: rows_of(self.lists),
            resources: rows_of(self.resources),
            tables: rows_of(self.tables),
            table_cells: rows_of(self.table_cells),
            format_runs: rows_of(self.format_runs),
            block_images: rows_of(self.block_images),
            block_footnote_refs: rows_of(self.block_footnote_refs),
            footnote_markers: self.footnote_markers.deep_view(),
            block_offsets: self.block_offsets@,
            counters: self.counters.deep_view(),
        }
    }
}

/// A store given back as it was before, but for the ids it has given out since.
pub open spec fn restored(before: StoreModel, now: StoreModel) -> StoreModel {
    StoreModel { counters: now.counters, ..before }
}

/// The next id of an entity, by its counter.
pub open spec fn counter_of(counters: Seq<(Seq<char>, u64)>, entity: Seq<char>) -> u64 {
    match lookup(counters, entity) {
        Some(id) => id,
        None => 1,
    }
}

impl RopeStore {
    /// The savepoints, by id.
    pub open spec fn saved(&self) -> Map<u64, StoreModel> {
        self.savepoints@.map_values(|snapshot: RopeStoreSnapshot| snapshot.deep_view())
    }

    /// The id of the next savepoint.
    pub open spec fn next_saved(&self) -> u64 {
        self.next_savepoint_id
    }

    pub fn new() -> (store: Self)
        ensures
            store.deep_view() == empty_store(),
            store.saved() == Map::<u64, StoreModel>::empty(),
            store.next_saved() == 0,
    {
        let store = RopeStore {
            rope: no_text(),
            roots: no_rows(),
            documents: no_rows(),
            frames: no_rows(),
            blocks: no_rows(),
            lists: no_rows(),
            resources: no_rows(),
            tables: no_rows(),
            table_cells: no_rows(),
            format_runs: no_rows(),
            block_images: no_rows(),
            block_footnote_refs: no_rows(),
            footnote_markers: TextMap::new(),
            block_offsets: BlockOffsetIndex::new(),
            counters: TextMap::new(),
            savepoints: HashMap::new(),
            next_savepoint_id: 0,
        };
        assert(store.deep_view() =~= empty_store());
        assert(store.saved() =~= Map::<u64, StoreModel>::empty());
        store
    }

    /// A snapshot of the entire store.
    pub fn snapshot(&self) -> (snapshot: RopeStoreSnapshot)
        ensures
            snapshot.deep_view() == self.deep_view(),
    {
        RopeStoreSnapshot {
            rope: copy_text(&self.rope),
            roots: copy_rows(&self.roots),
            documents: copy_rows(&self.documents),
            frames: copy_rows(&self.frames),
            blocks: copy_rows(&self.blocks),
            lists: copy_rows(&self.lists),
            resources: copy_rows(&self.resources),
            tables: copy_rows(&self.tables),
            table_cells: copy_rows(&self.table_cells),
            format_runs: copy_rows(&self.format_runs),
            block_images: copy_rows(&self.block_images),
            block_footnote_refs: copy_rows(&self.block_footnote_refs),
            footnote_markers: self.footnote_markers.copy(),
            block_offsets: self.block_offsets.copy(),
            counters: self.counters.copy(),
        }
    }

    /// Restore from a snapshot. Overwrites counters too: used for
    /// transaction rollback.
    pub fn restore(&mut self, snap: &RopeStoreSnapshot)
        ensures
            final(self).deep_view() == snap.deep_view(),
            final(self).saved() == old(self).saved(),
            final(self).next_saved() == old(self).next_saved(),
    {
        self.restore_without_counters(snap);
        self.counters = snap.counters.copy();
    }

    /// Restore everything *except* counters: used for undo, where ids
    /// must remain monotonically increasing across undo/redo cycles.
    pub fn restore_without_counters(&mut self, snap: &RopeStoreSnapshot)
        ensures
            final(self).deep_view() == restored(snap.deep_view(), old(self).deep_view()),
            final(self).saved() == old(self).saved(),
            final(self).next_saved() == old(self).next_saved(),
    {
        self.rope = copy_text(&snap.rope);
        self.roots = copy_rows(&snap.roots);
        self.documents = copy_rows(&snap.documents);
        self.frames = copy_rows(&snap.frames);
        self.blocks = copy_rows(&snap.blocks);
        self.lists = copy_rows(&snap.lists);
        self.resources = copy_rows(&snap.resources);
        self.tables = copy_rows(&snap.tables);
        self.table_cells = copy_rows(&snap.table_cells);
        self.format_runs = copy_rows(&snap.format_runs);
        self.block_images = copy_rows(&snap.block_images);
        self.block_footnote_refs = copy_rows(&snap.block_footnote_refs);
        self.footnote_markers = snap.footnote_markers.copy();
        self.block_offsets = snap.block_offsets.copy();
    }

    /// Keeps a snapshot of the store under a new id.
    pub fn create_savepoint(&mut self) -> (id: u64)
        requires
            old(self).next_saved() < u64::MAX,
        ensures
            id == old(self).next_saved(),
            final(self).deep_view() == old(self).deep_view(),
            final(self).saved() == old(self).saved().insert(id, old(self).deep_view()),
            final(self).next_saved() == id + 1,
    {
        let snap = self.snapshot();
        let id: u64 = self.next_savepoint_id;
        self.next_savepoint_id = id + 1;
        self.savepoints.insert(id, snap);
        assert(self.saved() =~= old(self).saved().insert(id, old(self).deep_view()));
        id
    }

    /// Restores the store to a savepoint.
    pub fn restore_savepoint(&mut self, savepoint_id: u64)
        requires
            old(self).saved().dom().contains(savepoint_id),
        ensures
            final(self).deep_view() == old(self).saved()[savepoint_id],
            final(self).saved() == old(self).saved(),
            final(self).next_saved() == old(self).next_saved(),
    {
        if let Some(found) = self.savepoints.get(&savepoint_id) {
            let snap = found.clone();
            self.restore(&snap);
        }
    }

    /// Forgets a savepoint.
    pub fn discard_savepoint(&mut self, savepoint_id: u64)
        ensures
            final(self).deep_view() == old(self).deep_view(),
            final(self).saved() == old(self).saved().remove(savepoint_id),
            final(self).next_saved() == old(self).next_saved(),
    {
        self.savepoints.remove(&savepoint_id);
        assert(self.saved() =~= old(self).saved().remove(savepoint_id));
    }

    /// Get-and-increment counter for an entity type.
    pub fn next_id(&mut self, entity_name: &str) -> (id: EntityId)
        requires
            counter_of(old(self).deep_view().counters, entity_name@) < u64::MAX,
        ensures
            id == counter_of(old(self).deep_view().counters, entity_name@),
            final(self).deep_view() == (StoreModel {
                counters: with_entry(
                    old(self).deep_view().counters,
                    entity_name@,
                    (id + 1) as u64,
                ),
                ..old(self).deep_view()
            }),
            final(self).saved() == old(self).saved(),
            final(self).next_saved() == old(self).next_saved(),
    {
        let id: EntityId = match self.counters.get(entity_name) {
            Some(id) => *id,
            None => 1,
        };
        self.counters.insert(entity_name.to_string(), id + 1);
        id
    }

    /// A snapshot whose contents only a store looks at.
    pub fn store_snapshot(&self) -> (snapshot: StoreSnapshot)
        ensures
            snapshot.deep_view() == self.deep_view(),
    {
        StoreSnapshot { snapshot: self.snapshot() }
    }

    /// Restore from such a snapshot (undo semantic: counters preserved).
    pub fn restore_store_snapshot(&mut self, snap: &StoreSnapshot)
        ensures
            final(self).deep_view() == restored(snap.deep_view(), old(self).deep_view()),
            final(self).saved() == old(self).saved(),
            final(self).next_saved() == old(self).next_saved(),
    {
        self.restore_without_counters(&snap.snapshot);
    }
}

impl Default for RopeStore {
    fn default() -> (store: Self)
        ensures
            store.deep_view() == empty_store(),
            store.saved() == Map::<u64, StoreModel>::empty(),
            store.next_saved() == 0,
    {
        RopeStore::new()
    }
}

/// Whether the stretches of the blocks lie within the text, which is no longer
/// than a size can say.
pub open spec fn text_is_indexed(store: StoreModel) -> bool {
    &&& stretches_fit(store.block_offsets, store.text.len() as int)
    &&& store.text.len() <= usize::MAX
}

/// The text of a block; none where the text does not hold the block.
pub open spec fn block_text(store: StoreModel, block_id: EntityId) -> Seq<char> {
    match stretch_of(store.block_offsets, block_id) {
        Some(k) => store.text.subrange(
            store.block_offsets[k].start as int,
            store.block_offsets[k].start + store.block_offsets[k].len,
        ),
        None => Seq::empty(),
    }
}

/// The store after text was inserted into a block before its character `at`;
/// unchanged where the text does not hold the block.
pub open spec fn with_block_text_inserted(
    store: StoreModel,
    block_id: EntityId,
    at: int,
    text: Seq<char>,
) -> StoreModel {
    match stretch_of(store.block_offsets, block_id) {
        Some(k) => {
            let point = store.block_offsets[k].start + at;
            StoreModel {
                text: store.text.take(point) + text + store.text.skip(point),
                block_offsets: stretched(store.block_offsets, k, text.len() as int),
                ..store
            }
        },
        None => store,
    }
}

impl RopeStore {
    /// The text of a block.
    pub fn block_content(&self, block_id: EntityId) -> (text: String)
        requires
            text_is_indexed(self.deep_view()),
        ensures
            text@ == block_text(self.deep_view(), block_id),
    {
        match self.block_offsets.find(block_id) {
            Some(k) => {
                let entry = self.block_offsets.entries[k];
                assert(self.block_offsets@[k as int].start + self.block_offsets@[k as int].len
                    <= self.deep_view().text.len());
                slice_text(&self.rope, entry.start, entry.start + entry.len)
            },
            None => {
                let text = String::new();
                assert(text@ =~= Seq::<char>::empty());
                text
            },
        }
    }

    /// Inserts text into a block before its character `at`.
    pub fn insert_in_block(&mut self, block_id: EntityId, at: usize, text: &str)
        requires
            text_is_indexed(old(self).deep_view()),
            at <= block_text(old(self).deep_view(), block_id).len(),
            old(self).deep_view().text.len() + text@.len() <= usize::MAX,
        ensures
            final(self).deep_view() == with_block_text_inserted(
                old(self).deep_view(),
                block_id,
                at as int,
                text@,
            ),
            text_is_indexed(final(self).deep_view()),
            final(self).saved() == old(self).saved(),
            final(self).next_saved() == old(self).next_saved(),
    {
        let ghost before = self.deep_view();
        if let Some(k) = self.block_offsets.find(block_id) {
            let count: usize = crate::text::to_chars(text).len();
            let entry = self.block_offsets.entries[k];
            proof {
                assert(before.block_offsets[k as int].start + before.block_offsets[k as int].len
                    <= before.text.len());
                crate::database::block_offset_index::stretching_keeps_the_fit(
                    before.block_offsets,
                    k as int,
                    count as int,
                    before.text.len() as int,
                );
                assert forall|i: int| 0 <= i < before.block_offsets.len() implies (
                #[trigger] before.block_offsets[i]).start + before.block_offsets[i].len
                    <= usize::MAX - count by {}
            }
            insert_text(&mut self.rope, entry.start + at, text);
            self.block_offsets.stretch(k, count);
            assert(self.deep_view() =~= with_block_text_inserted(
                before,
                block_id,
                at as int,
                text@,
            ));
        }
    }
}

/// A savepoint gives back the store as it was when it was made, whatever was done
/// to the store since.
pub proof fn a_savepoint_gives_the_store_back(
    saved: Map<u64, StoreModel>,
    id: u64,
    then: StoreModel,
    later: u64,
    now: StoreModel,
)
    requires
        id != later,
    ensures
        saved.insert(id, then)[id] == then,
        saved.insert(id, then).insert(later, now)[id] == then,
        saved.insert(id, then).remove(later)[id] == then,
{
}

/// The ids that a counter gives out only grow, and an undo does not set them back.
pub proof fn ids_only_grow(
    counters: Seq<(Seq<char>, u64)>,
    entity: Seq<char>,
    other: Seq<char>,
    before: StoreModel,
)
    requires
        crate::order::in_key_order(counters),
        counter_of(counters, entity) < u64::MAX,
    ensures
        counter_of(
            with_entry(counters, entity, (counter_of(counters, entity) + 1) as u64),
            other,
        ) == if other == entity {
            counter_of(counters, entity) + 1
        } else {
            counter_of(counters, other) as int
        },
        (StoreModel { counters, ..before }).counters == counters,
{
    crate::order::lookup_gives_back_what_was_set(
        counters,
        entity,
        (counter_of(counters, entity) + 1) as u64,
        other,
    );
}

} // verus!
