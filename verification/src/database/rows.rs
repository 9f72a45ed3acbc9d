//! The rows of the store, in tables that share what they have in common.
use std::collections::hash_map::RandomState;
use vstd::prelude::*;

use crate::entities::{
    Block, Document, DocumentModel, EntityId, Frame, FrameModel, List, Resource, ResourceModel,
    Root, RootModel, Table, TableCell, TableRowModel,
};
use crate::format_runs::{FormatRun, RunModel};
use crate::inline_pieces::{FootnoteRefAnchor, ImageAnchor, ImageModel, NoteModel};
use crate::models::group_deep_view;

verus! {

broadcast use group_deep_view;

/// What a [`Row`] holds.
pub enum RowModel {
    Root(RootModel),
    Document(DocumentModel),
    Frame(FrameModel),
    Block(Block),
    List(List),
    Resource(ResourceModel),
    Table(TableRowModel),
    TableCell(TableCell),
    FormatRuns(Seq<RunModel>),
    Images(Seq<ImageModel>),
    FootnoteRefs(Seq<NoteModel>),
}

/// A row of the store, of whatever table.
#[derive(Debug, PartialEq, Eq)]
pub enum Row {
    Root(Root),
    Document(Document),
    Frame(Frame),
    Block(Block),
    List(List),
    Resource(Resource),
    Table(Table),
    TableCell(TableCell),
    FormatRuns(Vec<FormatRun>),
    Images(Vec<ImageAnchor>),
    FootnoteRefs(Vec<FootnoteRefAnchor>),
}

impl DeepView for Row {
    type V = RowModel;

    open spec fn deep_view(&self) -> RowModel {
        match *self {
            Row::Root(root) => RowModel::Root(root.deep_view()),
            Row::Document(document) => RowModel::Document(document.deep_view()),
            Row::Frame(frame) => RowModel::Frame(frame.deep_view()),
            Row::Block(block) => RowModel::Block(block),
            Row::List(list) => RowModel::List(list),
            Row::Resource(resource) => RowModel::Resource(resource.deep_view()),
            Row::Table(table) => RowModel::Table(table.deep_view()),
            Row::TableCell(cell) => RowModel::TableCell(cell),
            Row::FormatRuns(runs) => RowModel::FormatRuns(runs.deep_view()),
            Row::Images(images) => RowModel::Images(images.deep_view()),
            Row::FootnoteRefs(notes) => RowModel::FootnoteRefs(notes.deep_view()),
        }
    }
}

impl Clone for Row {
    fn clone(&self) -> (copy: Self)
        ensures
            copy.deep_view() == self.deep_view(),
    {
        match self {
            Row::Root(root) => Row::Root(root.clone()),
            Row::Document(document) => Row::Document(document.clone()),
            Row::Frame(frame) => Row::Frame(frame.clone()),
            Row::Block(block) => Row::Block(*block),
            Row::List(list) => Row::List(*list),
            Row::Resource(resource) => Row::Resource(resource.clone()),
            Row::Table(table) => Row::Table(table.clone()),
            Row::TableCell(cell) => Row::TableCell(*cell),
            Row::FormatRuns(runs) => {
                let copies = runs.clone();
                assert(copies.deep_view() =~= runs.deep_view());
                Row::FormatRuns(copies)
            },
            Row::Images(images) => {
                let copies = images.clone();
                assert(copies.deep_view() =~= images.deep_view());
                Row::Images(copies)
            },
            Row::FootnoteRefs(notes) => {
                let copies = notes.clone();
                assert(copies.deep_view() =~= notes.deep_view());
                Row::FootnoteRefs(copies)
            },
        }
    }
}

/// The persistent hash map of the im crate.
#[verifier::external_type_specification]
#[verifier::external_body]
#[verifier::reject_recursive_types(K)]
#[verifier::reject_recursive_types(V)]
#[verifier::reject_recursive_types(S)]
pub struct ExImHashMap<K, V, S>(im::HashMap<K, V, S>);

/// A table of rows by id.
pub type Rows = im::HashMap<EntityId, Row, RandomState>;

/// What a table holds.
pub uninterp spec fn rows_of(table: Rows) -> Map<EntityId, RowModel>;

/// `im::HashMap::new` is a table without rows.
#[verifier::external_body]
pub(crate) fn no_rows() -> (table: Rows)
    ensures
        rows_of(table).dom() == Set::<EntityId>::empty(),
{
    im::HashMap::new()
}

/// `im::HashMap::get` finds the row under an id, if there is one.
#[verifier::external_body]
pub(crate) fn find_row(table: &Rows, id: EntityId) -> (row: Option<&Row>)
    ensures
        match row {
            Some(row) => rows_of(*table).dom().contains(id) && rows_of(*table)[id]
                == row.deep_view(),
            None => !rows_of(*table).dom().contains(id),
        },
{
    table.get(&id)
}

/// `im::HashMap::insert` puts a row under an id, in place of any that was there, and
/// changes nothing else.
#[verifier::external_body]
pub(crate) fn put_row(table: &mut Rows, id: EntityId, row: Row)
    ensures
        rows_of(*final(table)) == rows_of(*old(table)).insert(id, row.deep_view()),
{
    table.insert(id, row);
}

/// `im::HashMap::remove` takes away the row under an id, and changes nothing else.
#[verifier::external_body]
pub(crate) fn drop_row(table: &mut Rows, id: EntityId)
    ensures
        rows_of(*final(table)) == rows_of(*old(table)).remove(id),
{
    table.remove(&id);
}

/// `im::HashMap::clone` is a table of the same rows.
#[verifier::external_body]
pub(crate) fn copy_rows(table: &Rows) -> (copy: Rows)
    ensures
        rows_of(copy) == rows_of(*table),
{
    table.clone()
}

/// `im::HashMap::keys` gives the ids that there is a row under. Nothing is claimed of
/// their order, which the hasher decides.
#[verifier::external_body]
pub(crate) fn row_ids(table: &Rows) -> (ids: Vec<EntityId>)
    ensures
        forall|id: EntityId| ids@.contains(id) <==> rows_of(*table).dom().contains(id),
{
    table.keys().copied().collect()
}

/// The frame under an id.
pub open spec fn frame_in(rows: Map<EntityId, RowModel>, id: EntityId) -> Option<FrameModel> {
    if rows.dom().contains(id) && rows[id] is Frame {
        Some(rows[id]->Frame_0)
    } else {
        None
    }
}

/// The block under an id.
pub open spec fn block_in(rows: Map<EntityId, RowModel>, id: EntityId) -> Option<Block> {
    if rows.dom().contains(id) && rows[id] is Block {
        Some(rows[id]->Block_0)
    } else {
        None
    }
}

/// The document under an id.
pub open spec fn document_in(rows: Map<EntityId, RowModel>, id: EntityId) -> Option<DocumentModel> {
    if rows.dom().contains(id) && rows[id] is Document {
        Some(rows[id]->Document_0)
    } else {
        None
    }
}

/// The root under an id.
pub open spec fn root_in(rows: Map<EntityId, RowModel>, id: EntityId) -> Option<RootModel> {
    if rows.dom().contains(id) && rows[id] is Root {
        Some(rows[id]->Root_0)
    } else {
        None
    }
}

/// The format runs under a block's id; none where there is no such row.
pub open spec fn runs_in(rows: Map<EntityId, RowModel>, id: EntityId) -> Seq<RunModel> {
    if rows.dom().contains(id) && rows[id] is FormatRuns {
        rows[id]->FormatRuns_0
    } else {
        Seq::empty()
    }
}

/// The images under a block's id; none where there is no such row.
pub open spec fn images_in(rows: Map<EntityId, RowModel>, id: EntityId) -> Seq<ImageModel> {
    if rows.dom().contains(id) && rows[id] is Images {
        rows[id]->Images_0
    } else {
        Seq::empty()
    }
}

/// The footnote references under a block's id; none where there is no such row.
pub open spec fn notes_in(rows: Map<EntityId, RowModel>, id: EntityId) -> Seq<NoteModel> {
    if rows.dom().contains(id) && rows[id] is FootnoteRefs {
        rows[id]->FootnoteRefs_0
    } else {
        Seq::empty()
    }
}

/// The frame under an id.
pub(crate) fn find_frame(table: &Rows, id: EntityId) -> (frame: Option<&Frame>)
    ensures
        frame.deep_view() == frame_in(rows_of(*table), id),
{
    match find_row(table, id) {
        Some(Row::Frame(frame)) => Some(frame),
        _ => None,
    }
}

/// The block under an id.
pub(crate) fn find_block(table: &Rows, id: EntityId) -> (block: Option<Block>)
    ensures
        block == block_in(rows_of(*table), id),
{
    match find_row(table, id) {
        Some(Row::Block(block)) => Some(*block),
        _ => None,
    }
}

/// The document under an id.
pub(crate) fn find_document(table: &Rows, id: EntityId) -> (document: Option<&Document>)
    ensures
        document.deep_view() == document_in(rows_of(*table), id),
{
    match find_row(table, id) {
        Some(Row::Document(document)) => Some(document),
        _ => None,
    }
}

/// The root under an id.
pub(crate) fn find_root(table: &Rows, id: EntityId) -> (root: Option<&Root>)
    ensures
        root.deep_view() == root_in(rows_of(*table), id),
{
    match find_row(table, id) {
        Some(Row::Root(root)) => Some(root),
        _ => None,
    }
}

/// A copy of the format runs under a block's id.
pub(crate) fn copy_runs(table: &Rows, id: EntityId) -> (runs: Vec<FormatRun>)
    ensures
        runs.deep_view() == runs_in(rows_of(*table), id),
{
    match find_row(table, id) {
        Some(Row::FormatRuns(runs)) => {
            let copies = runs.clone();
            assert(copies.deep_view() =~= runs.deep_view());
            copies
        },
        _ => Vec::new(),
    }
}

/// A copy of the images under a block's id.
pub(crate) fn copy_images(table: &Rows, id: EntityId) -> (images: Vec<ImageAnchor>)
    ensures
        images.deep_view() == images_in(rows_of(*table), id),
{
    match find_row(table, id) {
        Some(Row::Images(images)) => {
            let copies = images.clone();
            assert(copies.deep_view() =~= images.deep_view());
            copies
        },
        _ => Vec::new(),
    }
}

/// A copy of the footnote references under a block's id.
pub(crate) fn copy_notes(table: &Rows, id: EntityId) -> (notes: Vec<FootnoteRefAnchor>)
    ensures
        notes.deep_view() == notes_in(rows_of(*table), id),
{
    match find_row(table, id) {
        Some(Row::FootnoteRefs(notes)) => {
            let copies = notes.clone();
            assert(copies.deep_view() =~= notes.deep_view());
            copies
        },
        _ => Vec::new(),
    }
}

} // verus!
