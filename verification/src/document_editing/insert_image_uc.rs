//! Inserts an image at a position of the document.
use vstd::prelude::*;

use crate::database::rope_store::{
    block_text, restored, text_is_indexed, text_len, with_block_text_inserted, RopeStore,
    RopeStoreSnapshot, StoreModel,
};
use crate::database::rows::{
    copy_images, copy_notes, copy_runs, document_in, find_document, find_row, images_in, notes_in,
    put_row, rows_of, runs_in, Row, RowModel, Rows,
};
use crate::document_editing::block_order::{
    blocks_found, blocks_of_frame, collect_block_ids_recursive, find_blocks, is_flow, sorted,
};
use crate::document_editing::edit_error::EditError;
use crate::document_editing::frames::{
    find_first_frame, first_frame, locate_document, located_document,
};
use crate::entities::{Block, Document, DocumentModel, EntityId};
use crate::format_runs::{inserted, plain_format, shift_runs_for_insert, CharacterFormat};
use crate::inline_pieces::{
    element_id, inserted_images, inserted_notes, logical_offset_to_byte,
    shift_footnote_refs_for_insert, shift_images_for_insert, synth_element_id, ImageAnchor,
    ImageModel,
};
use crate::models::group_deep_view;
use crate::text::{byte_len, to_chars};

verus! {

broadcast use group_deep_view;

/// What an [`InsertImageDto`] holds.
#[verifier::ext_equal]
pub struct InsertImageModel {
    pub position: i64,
    pub anchor: i64,
    pub image_name: Seq<char>,
    pub alt: Seq<char>,
    pub width: i64,
    pub height: i64,
    pub quality: i64,
}

/// Which image to insert, and where. A selection, that is an anchor other than the
/// position, is not supported.
#[derive(Debug, PartialEq, Eq)]
pub struct InsertImageDto {
    pub position: i64,
    pub anchor: i64,
    pub image_name: String,
    pub alt: String,
    pub width: i64,
    pub height: i64,
    /// From 1 to 100; zero stands for 100.
    pub quality: i64,
}

impl DeepView for InsertImageDto {
    type V = InsertImageModel;

    open spec fn deep_view(&self) -> InsertImageModel {
        InsertImageModel {
            position: self.position,
            anchor: self.anchor,
            image_name: self.image_name@,
            alt: self.alt@,
            width: self.width,
            height: self.height,
            quality: self.quality,
        }
    }
}

impl Clone for InsertImageDto {
    fn clone(&self) -> (copy: Self)
        ensures
            copy.deep_view() == self.deep_view(),
    {
        InsertImageDto {
            position: self.position,
            anchor: self.anchor,
            image_name: self.image_name.clone(),
            alt: self.alt.clone(),
            width: self.width,
            height: self.height,
            quality: self.quality,
        }
    }
}

/// The position behind the image, and the id of its fragment.
#[derive(Clone, Copy, Debug, PartialEq, Eq, Structural)]
pub struct InsertImageResultDto {
    pub new_position: i64,
    pub element_id: i64,
}

/// Where an image goes: before the character `offset` of the `at`-th block.
#[verifier::ext_equal]
pub struct InsertPlan {
    pub doc_id: EntityId,
    pub blocks: Seq<Block>,
    pub at: int,
    pub offset: int,
}

/// What is wrong with the request itself.
pub open spec fn request_error(dto: InsertImageModel) -> Option<EditError> {
    if dto.position != dto.anchor {
        Some(EditError::SelectionNotSupported)
    } else if dto.width <= 0 || dto.height <= 0 {
        Some(EditError::BadDimensions(dto.width, dto.height))
    } else if dto.quality < 0 || dto.quality > 100 {
        Some(EditError::BadQuality(dto.quality))
    } else {
        None
    }
}

/// The first block, from the `i`-th on, that a position lies in or at the end of;
/// the last one where there is none.
pub open spec fn block_at(store: StoreModel, blocks: Seq<Block>, position: int, i: int) -> int
    decreases blocks.len() - i,
{
    if i < 0 || i + 1 >= blocks.len() {
        blocks.len() - 1
    } else if position <= blocks[i].document_position + block_text(store, blocks[i].id).len() {
        i
    } else {
        block_at(store, blocks, position, i + 1)
    }
}

/// A number, or the nearest from zero to a limit.
pub open spec fn clamped(n: int, limit: int) -> int {
    if n < 0 {
        0
    } else if n > limit {
        limit
    } else {
        n
    }
}

/// Where a position lies in a document's blocks.
pub open spec fn place_in_blocks(
    store: StoreModel,
    doc_id: EntityId,
    blocks: Seq<Block>,
    position: i64,
) -> Result<InsertPlan, EditError> {
    if blocks.len() == 0 {
        Err(EditError::NoBlocks)
    } else {
        let at = block_at(store, blocks, position as int, 0);
        Ok(
            InsertPlan {
                doc_id,
                blocks,
                at,
                offset: clamped(
                    position - blocks[at].document_position,
                    block_text(store, blocks[at].id).len() as int,
                ),
            },
        )
    }
}

/// Where an image goes, or why it is refused. The blocks of sub-frames and of table
/// cells count.
pub open spec fn insert_plan(store: StoreModel, dto: InsertImageModel) -> Result<
    InsertPlan,
    EditError,
> {
    if request_error(dto) is Some {
        Err(request_error(dto)->0)
    } else {
        match located_document(store) {
            Err(e) => Err(e),
            Ok(doc_id) => match first_frame(store, doc_id) {
                Err(e) => Err(e),
                Ok(root) => match blocks_of_frame(store, root) {
                    Err(e) => Err(e),
                    Ok(ids) => place_in_blocks(
                        store,
                        doc_id,
                        sorted(blocks_found(store.blocks, ids)),
                        dto.position,
                    ),
                },
            },
        }
    }
}

/// The byte of the block's text at which the image is anchored.
pub open spec fn insert_byte(store: StoreModel, plan: InsertPlan) -> int {
    byte_len(block_text(store, plan.blocks[plan.at].id).take(plan.offset)) as int
}

/// The anchor of the image.
pub open spec fn new_anchor(dto: InsertImageModel, byte: int) -> ImageModel {
    ImageModel {
        offset: byte,
        name: dto.image_name,
        alt: dto.alt,
        width: dto.width,
        height: dto.height,
        quality: if dto.quality == 0 {
            100
        } else {
            dto.quality
        },
        format: plain_format(),
    }
}

/// The first image, from the `i`-th on, that lies past a byte.
pub open spec fn first_past(images: Seq<ImageModel>, byte: int, i: int) -> int
    decreases images.len() - i,
{
    if i < 0 || i >= images.len() {
        images.len() as int
    } else if images[i].offset > byte {
        i
    } else {
        first_past(images, byte, i + 1)
    }
}

/// The images of a block with a new one among them.
pub open spec fn with_anchor(images: Seq<ImageModel>, anchor: ImageModel) -> Seq<ImageModel> {
    let shifted = inserted_images(images, anchor.offset, 3);
    shifted.insert(first_past(shifted, anchor.offset, 0), anchor)
}

/// The blocks behind the one with the image, each one character further on.
pub open spec fn pushed_on(
    rows: Map<EntityId, RowModel>,
    blocks: Seq<Block>,
    from: int,
    n: int,
    now: i64,
) -> Map<EntityId, RowModel>
    decreases n - from,
{
    if n <= from {
        rows
    } else {
        let block = blocks[n - 1];
        pushed_on(rows, blocks, from, n - 1, now).insert(
            block.id,
            RowModel::Block(
                Block {
                    document_position: (block.document_position + 1) as i64,
                    updated_at: now,
                    ..block
                },
            ),
        )
    }
}

/// The runs of the blocks after three bytes were inserted into one of them.
pub open spec fn runs_shifted(rows: Map<EntityId, RowModel>, id: EntityId, byte: int) -> Map<
    EntityId,
    RowModel,
> {
    if rows.dom().contains(id) && rows[id] is FormatRuns {
        rows.insert(id, RowModel::FormatRuns(inserted(rows[id]->FormatRuns_0, byte, 3)))
    } else {
        rows
    }
}

/// The footnote references of the blocks after three bytes were inserted into one
/// of them.
pub open spec fn notes_shifted(rows: Map<EntityId, RowModel>, id: EntityId, byte: int) -> Map<
    EntityId,
    RowModel,
> {
    if rows.dom().contains(id) && rows[id] is FootnoteRefs {
        rows.insert(id, RowModel::FootnoteRefs(inserted_notes(rows[id]->FootnoteRefs_0, byte, 3)))
    } else {
        rows
    }
}

/// The store after an image was inserted: its sentinel in the text, its anchor among
/// the block's images, everything anchored behind it moved by the sentinel's bytes,
/// and the blocks behind its own by one character.
pub open spec fn image_inserted(
    store: StoreModel,
    dto: InsertImageModel,
    plan: InsertPlan,
    now: i64,
) -> StoreModel {
    let block = plan.blocks[plan.at];
    let byte = insert_byte(store, plan);
    let document = document_in(store.documents, plan.doc_id)->0;
    let written = with_block_text_inserted(store, block.id, plan.offset, seq!['\u{FFFC}']);
    StoreModel {
        block_images: store.block_images.insert(
            block.id,
            RowModel::Images(
                with_anchor(images_in(store.block_images, block.id), new_anchor(dto, byte)),
            ),
        ),
        format_runs: runs_shifted(store.format_runs, block.id, byte),
        block_footnote_refs: notes_shifted(store.block_footnote_refs, block.id, byte),
        blocks: pushed_on(
            store.blocks.insert(block.id, RowModel::Block(Block { updated_at: now, ..block })),
            plan.blocks,
            plan.at + 1,
            plan.blocks.len() as int,
            now,
        ),
        documents: store.documents.insert(
            plan.doc_id,
            RowModel::Document(
                DocumentModel {
                    character_count: (document.character_count + 1) as i64,
                    updated_at: now,
                    ..document
                },
            ),
        ),
        ..written
    }
}

/// What an insertion answers.
pub open spec fn insert_answer(
    store: StoreModel,
    dto: InsertImageModel,
    plan: InsertPlan,
) -> InsertImageResultDto {
    InsertImageResultDto {
        new_position: (dto.position + 1) as i64,
        element_id: element_id(
            plan.blocks[plan.at].id as int,
            insert_byte(store, plan),
        ) as i64,
    }
}

/// Whether the offsets of a block leave room for one more sentinel.
pub open spec fn block_has_room(store: StoreModel, id: EntityId) -> bool {
    &&& byte_len(block_text(store, id)) + 3 <= u32::MAX
    &&& forall|i: int|
        0 <= i < runs_in(store.format_runs, id).len() ==> (#[trigger] runs_in(
            store.format_runs,
            id,
        )[i]).start + 3 <= u32::MAX && runs_in(store.format_runs, id)[i].end + 3 <= u32::MAX
    &&& forall|i: int|
        0 <= i < images_in(store.block_images, id).len() ==> (#[trigger] images_in(
            store.block_images,
            id,
        )[i]).offset + 3 <= u32::MAX
    &&& forall|i: int|
        0 <= i < notes_in(store.block_footnote_refs, id).len() ==> (#[trigger] notes_in(
            store.block_footnote_refs,
            id,
        )[i]).offset + 3 <= u32::MAX
}

/// Whether the numbers that an insertion raises leave room for it: the length of the
/// text, the position of the request, those of the blocks behind the image, the offsets
/// of its block, and the document's count of characters.
pub open spec fn has_room(store: StoreModel, dto: InsertImageModel, plan: InsertPlan) -> bool {
    &&& store.text.len() < usize::MAX
    &&& dto.position < i64::MAX
    &&& block_has_room(store, plan.blocks[plan.at].id)
    &&& forall|i: int|
        plan.at < i < plan.blocks.len() ==> (#[trigger] plan.blocks[i]).document_position < i64::MAX
    &&& document_in(store.documents, plan.doc_id)->0.character_count < i64::MAX
}

/// Whether an insertion that is not refused has room.
pub open spec fn fits(store: StoreModel, dto: InsertImageModel) -> bool {
    insert_plan(store, dto) matches Ok(plan) ==> has_room(store, dto, plan)
}

/// The first block that a position lies in or at the end of.
fn find_block_at(store: &RopeStore, blocks: &Vec<Block>, position: i64) -> (at: usize)
    requires
        text_is_indexed(store.deep_view()),
        blocks@.len() > 0,
    ensures
        at == block_at(store.deep_view(), blocks@, position as int, 0),
        at < blocks@.len(),
{
    let mut i: usize = 0;
    while i < blocks.len() - 1
        invariant
            text_is_indexed(store.deep_view()),
            i < blocks@.len(),
            block_at(store.deep_view(), blocks@, position as int, 0) == block_at(
                store.deep_view(),
                blocks@,
                position as int,
                i as int,
            ),
        decreases blocks@.len() - i,
    {
        let text = store.block_content(blocks[i].id);
        let len: usize = to_chars(text.as_str()).len();
        if position as i128 <= blocks[i].document_position as i128 + len as i128 {
            return i;
        }
        i += 1;
    }
    i
}

/// Where an image goes: before the character `offset` of the `at`-th block.
struct Spot {
    doc_id: EntityId,
    blocks: Vec<Block>,
    at: usize,
    offset: usize,
}

impl Spot {
    spec fn plan(&self) -> InsertPlan {
        InsertPlan {
            doc_id: self.doc_id,
            blocks: self.blocks@,
            at: self.at as int,
            offset: self.offset as int,
        }
    }
}

/// Where an image goes, or why it is refused.
fn find_spot(store: &RopeStore, dto: &InsertImageDto) -> (res: Result<Spot, EditError>)
    requires
        is_flow(store.deep_view()),
        text_is_indexed(store.deep_view()),
    ensures
        match insert_plan(store.deep_view(), dto.deep_view()) {
            Ok(plan) => res matches Ok(spot) && spot.plan() == plan && spot.at < spot.blocks@.len(),
            Err(e) => res matches Err(f) && e == f,
        },
        res matches Ok(spot) ==> document_in(store.deep_view().documents, spot.doc_id) is Some,
{
    if dto.position != dto.anchor {
        return Err(EditError::SelectionNotSupported);
    }
    if dto.width <= 0 || dto.height <= 0 {
        return Err(EditError::BadDimensions(dto.width, dto.height));
    }
    if dto.quality < 0 || dto.quality > 100 {
        return Err(EditError::BadQuality(dto.quality));
    }
    let doc_id: EntityId = match locate_document(store) {
        Ok(id) => id,
        Err(e) => return Err(e),
    };
    let root: EntityId = match find_first_frame(store, doc_id) {
        Ok(id) => id,
        Err(e) => return Err(e),
    };
    let ids = match collect_block_ids_recursive(store, root) {
        Ok(ids) => ids,
        Err(e) => return Err(e),
    };
    let blocks = find_blocks(&store.blocks, &ids);
    if blocks.len() == 0 {
        return Err(EditError::NoBlocks);
    }
    let at: usize = find_block_at(store, &blocks, dto.position);
    let block = blocks[at];
    let text = store.block_content(block.id);
    let len: usize = to_chars(text.as_str()).len();
    let wanted: i128 = dto.position as i128 - block.document_position as i128;
    let offset: usize = if wanted < 0 {
        0
    } else if wanted > len as i128 {
        len
    } else {
        wanted as usize
    };
    Ok(Spot { doc_id, blocks, at, offset })
}

/// Whether the offsets of a block leave room for one more sentinel.
fn block_fits(store: &RopeStore, id: EntityId) -> (fits: bool)
    requires
        text_is_indexed(store.deep_view()),
    ensures
        fits == block_has_room(store.deep_view(), id),
{
    let most: u32 = u32::MAX - 3;
    let text = store.block_content(id);
    let size: usize = text.as_str().as_bytes().len();
    if size > most as usize {
        return false;
    }
    let runs = copy_runs(&store.format_runs, id);
    let ghost all_runs = runs_in(store.deep_view().format_runs, id);
    for i in 0..runs.len()
        invariant
            most == u32::MAX - 3,
            all_runs == runs.deep_view(),
            all_runs == runs_in(store.deep_view().format_runs, id),
            forall|k: int|
                0 <= k < i ==> (#[trigger] all_runs[k]).start + 3 <= u32::MAX && all_runs[k].end + 3
                    <= u32::MAX,
    {
        assert(all_runs[i as int] == runs@[i as int].deep_view());
        if runs[i].byte_start > most || runs[i].byte_end > most {
            return false;
        }
    }
    let images = copy_images(&store.block_images, id);
    let ghost all_images = images_in(store.deep_view().block_images, id);
    for i in 0..images.len()
        invariant
            most == u32::MAX - 3,
            all_images == images.deep_view(),
            all_images == images_in(store.deep_view().block_images, id),
            forall|k: int| 0 <= k < i ==> (#[trigger] all_images[k]).offset + 3 <= u32::MAX,
    {
        assert(all_images[i as int] == images@[i as int].deep_view());
        if images[i].byte_offset > most {
            return false;
        }
    }
    let notes = copy_notes(&store.block_footnote_refs, id);
    let ghost all_notes = notes_in(store.deep_view().block_footnote_refs, id);
    for i in 0..notes.len()
        invariant
            most == u32::MAX - 3,
            all_notes == notes.deep_view(),
            all_notes == notes_in(store.deep_view().block_footnote_refs, id),
            forall|k: int| 0 <= k < i ==> (#[trigger] all_notes[k]).offset + 3 <= u32::MAX,
    {
        assert(all_notes[i as int] == notes@[i as int].deep_view());
        if notes[i].byte_offset > most {
            return false;
        }
    }
    proof {
        assert(runs.deep_view().len() == runs.len());
        assert(images.deep_view().len() == images.len());
        assert(notes.deep_view().len() == notes.len());
        assert(size == byte_len(block_text(store.deep_view(), id)));
        assert forall|k: int| 0 <= k < all_runs.len() implies (#[trigger] runs_in(
            store.deep_view().format_runs,
            id,
        )[k]).start + 3 <= u32::MAX && all_runs[k].end + 3 <= u32::MAX by {
            assert(all_runs[k].start + 3 <= u32::MAX);
        }
        assert forall|k: int| 0 <= k < all_images.len() implies (#[trigger] images_in(
            store.deep_view().block_images,
            id,
        )[k]).offset + 3 <= u32::MAX by {
            assert(all_images[k].offset + 3 <= u32::MAX);
        }
        assert forall|k: int| 0 <= k < all_notes.len() implies (#[trigger] notes_in(
            store.deep_view().block_footnote_refs,
            id,
        )[k]).offset + 3 <= u32::MAX by {
            assert(all_notes[k].offset + 3 <= u32::MAX);
        }
    }
    true
}

/// Whether an insertion that is not refused has room.
pub fn image_fits(store: &RopeStore, dto: &InsertImageDto) -> (res: bool)
    requires
        is_flow(store.deep_view()),
        text_is_indexed(store.deep_view()),
    ensures
        res == fits(store.deep_view(), dto.deep_view()),
{
    let spot = match find_spot(store, dto) {
        Ok(spot) => spot,
        Err(_) => return true,
    };
    if text_len(&store.rope) == usize::MAX || dto.position == i64::MAX || !block_fits(
        store,
        spot.blocks[spot.at].id,
    ) {
        return false;
    }
    for i in spot.at + 1..spot.blocks.len()
        invariant
            spot.at < spot.blocks@.len(),
            insert_plan(store.deep_view(), dto.deep_view()) == Ok::<InsertPlan, EditError>(
                spot.plan(),
            ),
            forall|k: int|
                spot.at < k < i ==> (#[trigger] spot.blocks@[k]).document_position < i64::MAX,
    {
        if spot.blocks[i].document_position == i64::MAX {
            assert(spot.plan().blocks[i as int].document_position == i64::MAX);
            return false;
        }
    }
    match find_document(&store.documents, spot.doc_id) {
        Some(document) => document.character_count < i64::MAX,
        None => false,
    }
}

/// Puts an anchor before the first image past its byte.
fn put_anchor(images: &mut Vec<ImageAnchor>, anchor: ImageAnchor)
    requires
        forall|i: int|
            0 <= i < old(images).deep_view().len() ==> (#[trigger] old(images).deep_view()[i]).offset
                + 3 <= u32::MAX,
    ensures
        final(images).deep_view() == with_anchor(old(images).deep_view(), anchor.deep_view()),
{
    shift_images_for_insert(images, anchor.byte_offset, 3);
    let ghost shifted = images.deep_view();
    let mut at: usize = 0;
    while at < images.len() && images[at].byte_offset <= anchor.byte_offset
        invariant
            at <= images@.len(),
            shifted == images.deep_view(),
            first_past(shifted, anchor.byte_offset as int, 0) == first_past(
                shifted,
                anchor.byte_offset as int,
                at as int,
            ),
        decreases images@.len() - at,
    {
        assert(shifted[at as int] == images@[at as int].deep_view());
        at += 1;
    }
    proof {
        if at < images@.len() {
            assert(shifted[at as int] == images@[at as int].deep_view());
        }
    }
    images.insert(at, anchor);
    assert(images.deep_view() =~= shifted.insert(at as int, anchor.deep_view()));
}

/// Moves what is anchored in a block behind a byte by three bytes, and anchors an
/// image there.
fn anchor_image(store: &mut RopeStore, id: EntityId, anchor: ImageAnchor)
    requires
        block_has_room(old(store).deep_view(), id),
    ensures
        final(store).deep_view() == (StoreModel {
            block_images: old(store).deep_view().block_images.insert(
                id,
                RowModel::Images(
                    with_anchor(
                        images_in(old(store).deep_view().block_images, id),
                        anchor.deep_view(),
                    ),
                ),
            ),
            format_runs: runs_shifted(
                old(store).deep_view().format_runs,
                id,
                anchor.byte_offset as int,
            ),
            block_footnote_refs: notes_shifted(
                old(store).deep_view().block_footnote_refs,
                id,
                anchor.byte_offset as int,
            ),
            ..old(store).deep_view()
        }),
        final(store).saved() == old(store).saved(),
        final(store).next_saved() == old(store).next_saved(),
{
    let ghost before = store.deep_view();
    let byte: u32 = anchor.byte_offset;
    let mut images = copy_images(&store.block_images, id);
    put_anchor(&mut images, anchor);
    put_row(&mut store.block_images, id, Row::Images(images));
    let has_runs: bool = matches!(find_row(&store.format_runs, id), Some(Row::FormatRuns(_)));
    if has_runs {
        let mut runs = copy_runs(&store.format_runs, id);
        proof {
            let all = runs_in(before.format_runs, id);
            assert forall|i: int| 0 <= i < all.len() implies crate::format_runs::insert_into_run(
                #[trigger] all[i],
                byte as int,
                3,
            ).start <= u32::MAX && crate::format_runs::insert_into_run(all[i], byte as int, 3).end
                <= u32::MAX by {
                assert(runs_in(before.format_runs, id)[i].start + 3 <= u32::MAX);
            }
        }
        shift_runs_for_insert(&mut runs, byte, 3);
        put_row(&mut store.format_runs, id, Row::FormatRuns(runs));
    }
    let has_notes: bool = matches!(
        find_row(&store.block_footnote_refs, id),
        Some(Row::FootnoteRefs(_))
    );
    if has_notes {
        let mut notes = copy_notes(&store.block_footnote_refs, id);
        shift_footnote_refs_for_insert(&mut notes, byte, 3);
        put_row(&mut store.block_footnote_refs, id, Row::FootnoteRefs(notes));
    }
    assert(store.deep_view().format_runs =~= runs_shifted(before.format_runs, id, byte as int));
    assert(store.deep_view().block_footnote_refs =~= notes_shifted(
        before.block_footnote_refs,
        id,
        byte as int,
    ));
}

/// Pushes the blocks from one on a character further.
fn push_blocks_on(rows: &mut Rows, blocks: &Vec<Block>, from: usize, now: i64)
    requires
        from <= blocks@.len(),
        forall|i: int|
            from <= i < blocks@.len() ==> (#[trigger] blocks@[i]).document_position < i64::MAX,
    ensures
        rows_of(*final(rows)) == pushed_on(
            rows_of(*old(rows)),
            blocks@,
            from as int,
            blocks@.len() as int,
            now,
        ),
{
    let ghost start = rows_of(*rows);
    for i in from..blocks.len()
        invariant
            from <= blocks@.len(),
            forall|k: int|
                from <= k < blocks@.len() ==> (#[trigger] blocks@[k]).document_position < i64::MAX,
            rows_of(*rows) == pushed_on(start, blocks@, from as int, i as int, now),
    {
        let mut block = blocks[i];
        assert(blocks@[i as int].document_position < i64::MAX);
        block.document_position = block.document_position + 1;
        block.updated_at = now;
        put_row(rows, block.id, Row::Block(block));
    }
}

/// Inserts an image.
fn execute_insert_image(store: &mut RopeStore, dto: &InsertImageDto, now: i64) -> (res: Result<
    (InsertImageResultDto, RopeStoreSnapshot),
    EditError,
>)
    requires
        is_flow(old(store).deep_view()),
        text_is_indexed(old(store).deep_view()),
        fits(old(store).deep_view(), dto.deep_view()),
    ensures
        match insert_plan(old(store).deep_view(), dto.deep_view()) {
            Ok(plan) => {
                &&& res matches Ok((answer, snapshot)) && answer == insert_answer(
                    old(store).deep_view(),
                    dto.deep_view(),
                    plan,
                ) && snapshot.deep_view() == old(store).deep_view()
                &&& final(store).deep_view() == image_inserted(
                    old(store).deep_view(),
                    dto.deep_view(),
                    plan,
                    now,
                )
            },
            Err(e) => res matches Err(f) && e == f && *final(store) == *old(store),
        },
        final(store).saved() == old(store).saved(),
        final(store).next_saved() == old(store).next_saved(),
{
    let ghost before = store.deep_view();
    let ghost request = dto.deep_view();
    let spot = match find_spot(store, dto) {
        Ok(spot) => spot,
        Err(e) => return Err(e),
    };
    let ghost plan = spot.plan();
    let doc_id: EntityId = spot.doc_id;
    let blocks = spot.blocks;
    let at: usize = spot.at;
    let offset: usize = spot.offset;
    let block = blocks[at];
    let text = store.block_content(block.id);
    proof {
        assert(has_room(before, request, plan));
        crate::text::chars_within_bytes(text@);
    }
    let images = copy_images(&store.block_images, block.id);
    let byte: u32 = logical_offset_to_byte(text.as_str(), images.as_slice(), offset as i64);
    assert(byte == insert_byte(before, plan));
    let snapshot = store.snapshot();
    let anchor = ImageAnchor {
        byte_offset: byte,
        name: dto.image_name.clone(),
        alt: dto.alt.clone(),
        width: dto.width,
        height: dto.height,
        quality: if dto.quality == 0 {
            100
        } else {
            dto.quality
        },
        format: CharacterFormat::default(),
    };
    assert(anchor.deep_view() =~= new_anchor(request, byte as int));
    anchor_image(store, block.id, anchor);
    let ghost anchored = store.deep_view();
    // The sentinel: three bytes, one character.
    proof {
        reveal_strlit("\u{FFFC}");
        assert("\u{FFFC}"@ =~= seq!['\u{FFFC}']);
        assert(block_text(anchored, block.id) == block_text(before, block.id));
    }
    store.insert_in_block(block.id, offset, "\u{FFFC}");
    let mut updated = block;
    updated.updated_at = now;
    put_row(&mut store.blocks, block.id, Row::Block(updated));
    assert(at < blocks.len());
    push_blocks_on(&mut store.blocks, &blocks, at + 1, now);
    let found: Option<Document> = match find_document(&store.documents, doc_id) {
        Some(document) => Some(document.clone()),
        None => None,
    };
    if let Some(mut document) = found {
        proof {
            assert(before.documents[doc_id] is Document);
        }
        document.character_count = document.character_count + 1;
        document.updated_at = now;
        put_row(&mut store.documents, doc_id, Row::Document(document));
    }
    assert(store.deep_view() =~= image_inserted(before, request, plan, now));
    let element: u64 = synth_element_id(block.id, byte);
    Ok(
        (
            InsertImageResultDto { new_position: dto.position + 1, element_id: element as i64 },
            snapshot,
        ),
    )
}

/// Inserts an image at a position of the document.
pub struct InsertImageUseCase {
    pub undo_snapshot: Option<RopeStoreSnapshot>,
    pub last_dto: Option<InsertImageDto>,
}

impl InsertImageUseCase {
    pub fn new() -> (case: Self)
        ensures
            case.undo_snapshot is None,
            case.last_dto is None,
    {
        InsertImageUseCase { undo_snapshot: None, last_dto: None }
    }

    /// Inserts an image, at the time `now`. What is refused leaves the store as it is.
    pub fn execute(&mut self, store: &mut RopeStore, dto: &InsertImageDto, now: i64) -> (res: Result<
        InsertImageResultDto,
        EditError,
    >)
        requires
            is_flow(old(store).deep_view()),
            text_is_indexed(old(store).deep_view()),
            fits(old(store).deep_view(), dto.deep_view()),
        ensures
            match insert_plan(old(store).deep_view(), dto.deep_view()) {
                Ok(plan) => {
                    &&& res == Ok::<InsertImageResultDto, EditError>(
                        insert_answer(old(store).deep_view(), dto.deep_view(), plan),
                    )
                    &&& final(store).deep_view() == image_inserted(
                        old(store).deep_view(),
                        dto.deep_view(),
                        plan,
                        now,
                    )
                    &&& final(self).undo_snapshot.deep_view() == Some(old(store).deep_view())
                    &&& final(self).last_dto.deep_view() == Some(dto.deep_view())
                },
                Err(e) => {
                    &&& res == Err::<InsertImageResultDto, EditError>(e)
                    &&& *final(store) == *old(store)
                    &&& *final(self) == *old(self)
                },
            },
            final(store).saved() == old(store).saved(),
    {
        match execute_insert_image(store, dto, now) {
            Ok((answer, snapshot)) => {
                self.undo_snapshot = Some(snapshot);
                self.last_dto = Some(dto.clone());
                Ok(answer)
            },
            Err(e) => Err(e),
        }
    }

    /// Gives the store back as it was before the last insertion, but for the ids it
    /// has given out.
    pub fn undo(&mut self, store: &mut RopeStore) -> (res: Result<(), EditError>)
        ensures
            *final(self) == *old(self),
            match old(self).undo_snapshot.deep_view() {
                Some(before) => res is Ok && final(store).deep_view() == restored(
                    before,
                    old(store).deep_view(),
                ),
                None => res == Err::<(), EditError>(EditError::NothingToUndo) && *final(store)
                    == *old(store),
            },
            final(store).saved() == old(store).saved(),
    {
        match &self.undo_snapshot {
            Some(snapshot) => {
                store.restore_without_counters(snapshot);
                Ok(())
            },
            None => Err(EditError::NothingToUndo),
        }
    }

    /// Does the last insertion again.
    pub fn redo(&mut self, store: &mut RopeStore, now: i64) -> (res: Result<(), EditError>)
        requires
            is_flow(old(store).deep_view()),
            text_is_indexed(old(store).deep_view()),
            old(self).last_dto matches Some(dto) ==> fits(
                old(store).deep_view(),
                dto.deep_view(),
            ),
        ensures
            final(self).last_dto == old(self).last_dto,
            match old(self).last_dto.deep_view() {
                None => res == Err::<(), EditError>(EditError::NothingToRedo) && *final(store)
                    == *old(store) && *final(self) == *old(self),
                Some(dto) => match insert_plan(old(store).deep_view(), dto) {
                    Ok(plan) => {
                        &&& res is Ok
                        &&& final(store).deep_view() == image_inserted(
                            old(store).deep_view(),
                            dto,
                            plan,
                            now,
                        )
                        &&& final(self).undo_snapshot.deep_view() == Some(old(store).deep_view())
                    },
                    Err(e) => {
                        &&& res == Err::<(), EditError>(e)
                        &&& *final(store) == *old(store)
                        &&& *final(self) == *old(self)
                    },
                },
            },
            final(store).saved() == old(store).saved(),
    {
        let dto: InsertImageDto = match &self.last_dto {
            Some(dto) => dto.clone(),
            None => return Err(EditError::NothingToRedo),
        };
        match execute_insert_image(store, &dto, now) {
            Ok((_, snapshot)) => {
                self.undo_snapshot = Some(snapshot);
                Ok(())
            },
            Err(e) => Err(e),
        }
    }
}

} // verus!
