use text_document::database::block_offset_index::{BlockOffset, BlockOffsetIndex};
use text_document::database::rope_store::RopeStore;
use text_document::database::rows::Row;
use text_document::document_editing::block_order::collect_block_ids_recursive;
use text_document::document_editing::edit_error::EditError;
use text_document::document_editing::frames::find_block_owner_frame;
use text_document::document_editing::insert_image_uc::{
    image_fits, InsertImageDto, InsertImageUseCase,
};
use text_document::document_editing::soundness::{
    flow_is_sound, frame_ids_are_sound, frames_are_sound, text_is_sound,
};
use text_document::document_editing::unwrap_block_from_frame_uc::{
    UnwrapBlockFromFrameDto, UnwrapBlockFromFrameUseCase,
};
use text_document::document_editing::unwrap_frame_uc::{UnwrapFrameDto, UnwrapFrameUseCase};
use text_document::document_editing::wrap_blocks_in_frame_uc::{
    WrapBlocksInFrameDto, WrapBlocksInFrameUseCase,
};
use text_document::entities::{
    Block, Document, Frame, FrameFormat, Root, Table, TableCell, ROOT_ENTITY_ID,
};
use text_document::format_runs::{CharacterFormat, FootnoteRefAnchor, FormatRun};
use text_document::format_runs_query::{
    addressable_inline_pieces_for_block, block_document_position, get_block_footnote_refs,
    get_block_images, get_format_runs, inline_segments_for_block,
};
use text_document::inline_pieces::synth_element_id;

fn no_format() -> FrameFormat {
    FrameFormat {
        height: None,
        width: None,
        top_margin: None,
        bottom_margin: None,
        left_margin: None,
        right_margin: None,
        padding: None,
        border: None,
        position: None,
        is_blockquote: None,
    }
}

fn frame(id: u64, parent: Option<u64>, child_order: Vec<i64>) -> Frame {
    Frame {
        id,
        created_at: 0,
        updated_at: 0,
        parent_frame: parent,
        blocks: child_order
            .iter()
            .filter(|e| **e > 0)
            .map(|e| *e as u64)
            .collect(),
        child_order,
        format: no_format(),
        table: None,
        byte_range: (0, 0),
    }
}

/// A document whose root frame, frame 1, holds a block per text, blocks 1, 2, ...
fn document(texts: &[&str]) -> RopeStore {
    let mut store = RopeStore::new();
    let mut entries = Vec::new();
    let mut order = Vec::new();
    let mut all = String::new();
    let mut at = 0;
    for (i, text) in texts.iter().enumerate() {
        let id = i as u64 + 1;
        if i > 0 {
            all.push('\n');
            at += 1;
        }
        let len = text.chars().count();
        store.blocks.insert(
            id,
            Row::Block(Block {
                id,
                created_at: 0,
                updated_at: 0,
                document_position: at as i64,
            }),
        );
        entries.push(BlockOffset {
            block_id: id,
            start: at,
            len,
        });
        order.push(id as i64);
        all.push_str(text);
        at += len;
    }
    store.rope.insert(0, &all);
    store.block_offsets = BlockOffsetIndex { entries };
    store.frames.insert(1, Row::Frame(frame(1, None, order)));
    store.documents.insert(
        1,
        Row::Document(Document {
            id: 1,
            created_at: 0,
            updated_at: 0,
            frames: vec![1],
            character_count: at as i64,
        }),
    );
    store.roots.insert(
        ROOT_ENTITY_ID,
        Row::Root(Root {
            id: ROOT_ENTITY_ID,
            documents: vec![1],
        }),
    );
    store.counters.insert("frame".to_string(), 2);
    store
}

fn frame_of(store: &RopeStore, id: u64) -> Frame {
    match store.frames.get(&id) {
        Some(Row::Frame(frame)) => frame.clone(),
        other => panic!("no frame {id}: {other:?}"),
    }
}

fn position_of(store: &RopeStore, id: u64) -> i64 {
    match store.blocks.get(&id) {
        Some(Row::Block(block)) => block.document_position,
        other => panic!("no block {id}: {other:?}"),
    }
}

fn document_of(store: &RopeStore) -> Document {
    match store.documents.get(&1) {
        Some(Row::Document(document)) => document.clone(),
        other => panic!("no document: {other:?}"),
    }
}

fn wrap(start: i64, end: i64) -> WrapBlocksInFrameDto {
    WrapBlocksInFrameDto {
        start_block_id: start,
        end_block_id: end,
        top_margin: None,
        bottom_margin: None,
        left_margin: Some(40),
        right_margin: None,
        padding: None,
        border: None,
        position: None,
        is_blockquote: Some(true),
    }
}

fn image(position: i64) -> InsertImageDto {
    InsertImageDto {
        position,
        anchor: position,
        image_name: "cat.png".to_string(),
        alt: "A cat".to_string(),
        width: 64,
        height: 48,
        quality: 0,
    }
}

#[test]
fn wrapping_puts_blocks_into_a_new_frame() {
    let mut store = document(&["one", "two", "three", "four"]);
    let mut case = WrapBlocksInFrameUseCase::new();
    let answer = case.execute(&mut store, &wrap(2, 3), 77).unwrap();
    assert_eq!((answer.new_frame_id, answer.new_position), (2, 4));

    let new = frame_of(&store, 2);
    assert_eq!(new.child_order, vec![2, 3]);
    assert_eq!(new.blocks, vec![2, 3]);
    assert_eq!(new.parent_frame, Some(1));
    assert_eq!(new.format.left_margin, Some(40));
    assert_eq!(new.format.is_blockquote, Some(true));
    assert_eq!((new.created_at, new.updated_at), (77, 77));

    let root = frame_of(&store, 1);
    assert_eq!(root.child_order, vec![1, -2, 4]);
    assert_eq!(root.blocks, vec![1, 4]);
    assert_eq!(root.updated_at, 77);
    assert_eq!(document_of(&store).frames, vec![1, 2]);
    assert_eq!(
        collect_block_ids_recursive(&store, 1),
        Ok(vec![1, 2, 3, 4])
    );
    assert_eq!(find_block_owner_frame(&store, 1, 3), Ok(Some(2)));
    assert_eq!(find_block_owner_frame(&store, 1, 4), Ok(Some(1)));
    assert_eq!(find_block_owner_frame(&store, 1, 9), Ok(None));
}

#[test]
fn wrapping_a_range_with_a_frame_in_it_moves_that_frame_too() {
    let mut store = document(&["one", "two", "three", "four"]);
    let mut case = WrapBlocksInFrameUseCase::new();
    case.execute(&mut store, &wrap(2, 2), 1).unwrap();
    case.execute(&mut store, &wrap(1, 3), 2).unwrap();
    assert_eq!(frame_of(&store, 1).child_order, vec![-3, 4]);
    assert_eq!(frame_of(&store, 3).child_order, vec![1, -2, 3]);
    assert_eq!(frame_of(&store, 2).parent_frame, Some(3));
    assert_eq!(
        collect_block_ids_recursive(&store, 1),
        Ok(vec![1, 2, 3, 4])
    );
}

#[test]
fn a_wrap_that_cannot_be_is_refused_with_a_reason() {
    let mut store = document(&["one", "two", "three"]);
    let mut case = WrapBlocksInFrameUseCase::new();
    let mut refused = |store: &mut RopeStore, start, end| {
        case.execute(store, &wrap(start, end), 1).unwrap_err()
    };
    assert_eq!(refused(&mut store, 9, 1), EditError::StartBlockNotFound);
    assert_eq!(refused(&mut store, 1, 9), EditError::EndBlockNotFound);
    assert_eq!(refused(&mut store, 3, 1), EditError::EndBeforeStart);
    let mut other = WrapBlocksInFrameUseCase::new();
    other.execute(&mut store, &wrap(2, 2), 1).unwrap();
    assert_eq!(refused(&mut store, 1, 2), EditError::DifferentFrames);
    assert_eq!(frame_of(&store, 1).child_order, vec![1, -2, 3]);

    store.blocks.remove(&1);
    assert_eq!(refused(&mut store, 1, 1), EditError::StartBlockDisappeared);
    assert_eq!(
        EditError::StartBlockDisappeared.message(),
        "start block disappeared mid-op"
    );
    assert_eq!(
        EditError::EndBeforeStart.message(),
        "wrap_blocks_in_frame: end_block must not appear before start_block in document order"
    );
}

#[test]
fn a_store_without_a_document_is_refused() {
    let mut case = WrapBlocksInFrameUseCase::new();
    let mut store = RopeStore::new();
    let mut refused = |store: &mut RopeStore| case.execute(store, &wrap(1, 1), 1).unwrap_err();
    assert_eq!(refused(&mut store), EditError::RootNotFound);
    let root = |documents| {
        Row::Root(Root {
            id: ROOT_ENTITY_ID,
            documents,
        })
    };
    store.roots.insert(ROOT_ENTITY_ID, root(vec![]));
    assert_eq!(refused(&mut store), EditError::RootHasNoDocument);
    store.roots.insert(ROOT_ENTITY_ID, root(vec![5]));
    assert_eq!(refused(&mut store), EditError::DocumentNotFound);
    store.documents.insert(
        5,
        Row::Document(Document {
            id: 5,
            created_at: 0,
            updated_at: 0,
            frames: vec![],
            character_count: 0,
        }),
    );
    assert_eq!(refused(&mut store), EditError::DocumentHasNoFrames);
    assert_eq!(EditError::RootNotFound.message(), "Root entity not found");
}

#[test]
fn undo_gives_the_document_back_but_not_the_ids() {
    let mut store = document(&["one", "two"]);
    let mut case = WrapBlocksInFrameUseCase::new();
    assert_eq!(case.undo(&mut store), Err(EditError::NothingToUndo));
    assert_eq!(case.redo(&mut store, 5), Err(EditError::NothingToRedo));
    case.execute(&mut store, &wrap(1, 1), 1).unwrap();
    case.undo(&mut store).unwrap();
    assert_eq!(frame_of(&store, 1).child_order, vec![1, 2]);
    assert!(store.frames.get(&2).is_none());
    assert_eq!(store.counters.get("frame"), Some(&3));
    case.redo(&mut store, 9).unwrap();
    assert_eq!(frame_of(&store, 1).child_order, vec![-3, 2]);
    assert_eq!(frame_of(&store, 3).created_at, 9);
}

#[test]
fn unwrapping_the_frame_of_a_wrap_puts_the_blocks_back() {
    let mut store = document(&["one", "two", "three", "four"]);
    let mut wraps = WrapBlocksInFrameUseCase::new();
    wraps.execute(&mut store, &wrap(2, 3), 1).unwrap();
    let mut case = UnwrapFrameUseCase::new();
    let answer = case
        .execute(&mut store, &UnwrapFrameDto { frame_id: 2 }, 6)
        .unwrap();
    assert_eq!(answer.new_position, 4);
    assert_eq!(frame_of(&store, 1).child_order, vec![1, 2, 3, 4]);
    assert!(store.frames.get(&2).is_none());
    assert_eq!(document_of(&store).frames, vec![1]);
    case.undo(&mut store).unwrap();
    assert_eq!(frame_of(&store, 1).child_order, vec![1, -2, 4]);
    case.redo(&mut store, 8).unwrap();
    assert_eq!(frame_of(&store, 1).child_order, vec![1, 2, 3, 4]);
}

#[test]
fn unwrapping_gives_back_the_place_the_blocks_and_the_parents() {
    let mut store = document(&["one", "two", "three", "four"]);
    let mut wraps = WrapBlocksInFrameUseCase::new();
    wraps.execute(&mut store, &wrap(2, 2), 1).unwrap();
    let listed = frame_of(&store, 1).blocks;
    let wrapped = wraps.execute(&mut store, &wrap(1, 3), 2).unwrap();
    assert_eq!(frame_of(&store, 2).parent_frame, Some(3));
    let answer = UnwrapFrameUseCase::new()
        .execute(
            &mut store,
            &UnwrapFrameDto {
                frame_id: wrapped.new_frame_id,
            },
            3,
        )
        .unwrap();
    assert_eq!(answer.new_position, wrapped.new_position);
    assert_eq!(frame_of(&store, 1).child_order, vec![1, -2, 3, 4]);
    assert_eq!(frame_of(&store, 2).parent_frame, Some(1));
    let mut relisted = frame_of(&store, 1).blocks;
    relisted.sort();
    assert_eq!(relisted, listed);
}

#[test]
fn room_is_asked_for_where_an_image_goes() {
    let mut store = document(&["one", "two"]);
    assert!(image_fits(&store, &image(1)));
    // A refused request needs none.
    let mut refused = image(i64::MAX);
    refused.width = 0;
    assert!(image_fits(&store, &refused));
    assert_eq!(
        InsertImageUseCase::new().execute(&mut store, &refused, 1),
        Err(EditError::BadDimensions(0, 48))
    );
    assert!(!image_fits(&store, &image(i64::MAX)));
    // The offsets of another block do not matter.
    let far = |byte| {
        Row::FootnoteRefs(vec![FootnoteRefAnchor {
            byte_offset: byte,
            label: "n".to_string(),
            format: CharacterFormat::default(),
        }])
    };
    store.block_footnote_refs.insert(2, far(u32::MAX));
    assert!(image_fits(&store, &image(1)));
    assert!(!image_fits(&store, &image(5)));
    store.block_footnote_refs.insert(2, far(u32::MAX - 3));
    assert!(image_fits(&store, &image(5)));
    // Nor does how far before the text a block is said to begin.
    store.blocks.insert(
        1,
        Row::Block(Block {
            id: 1,
            created_at: 0,
            updated_at: 0,
            document_position: i64::MIN,
        }),
    );
    assert!(image_fits(&store, &image(5)));
}

#[test]
fn an_anchor_without_a_sentinel_takes_a_character_of_its_own() {
    let mut store = document(&["ab"]);
    let mut anchors = Vec::new();
    for byte_offset in [1, 1, 2] {
        anchors.push(FootnoteRefAnchor {
            byte_offset,
            label: "n".to_string(),
            format: CharacterFormat::default(),
        });
    }
    store.block_footnote_refs.insert(1, Row::FootnoteRefs(anchors));
    let block = Block {
        id: 1,
        created_at: 0,
        updated_at: 0,
        document_position: 0,
    };
    let pieces = addressable_inline_pieces_for_block(&store, &block, "ab");
    assert_eq!(pieces.last().unwrap().end, 2 + 3);
    // One sentinel serves one anchor.
    if let Some(Row::FootnoteRefs(anchors)) = store.block_footnote_refs.get_mut(&1) {
        anchors.pop();
    }
    let pieces = addressable_inline_pieces_for_block(&store, &block, "a\u{FFFC}");
    assert_eq!(pieces.last().unwrap().end, 2 + 1);
}

#[test]
fn an_unwrap_that_cannot_be_is_refused_with_a_reason() {
    let mut store = document(&["one", "two"]);
    let mut case = UnwrapFrameUseCase::new();
    let mut refused = |store: &mut RopeStore, frame_id| {
        case.execute(store, &UnwrapFrameDto { frame_id }, 1)
            .unwrap_err()
    };
    let missing = refused(&mut store, 7);
    assert_eq!(missing, EditError::NamedFrameNotFound(7));
    assert_eq!(missing.message(), "Frame 7 not found");
    assert_eq!(refused(&mut store, 1), EditError::TopLevelFrame);
    store.frames.insert(7, Row::Frame(frame(7, Some(1), vec![])));
    assert_eq!(refused(&mut store, 7), EditError::EntryNotInParent);
    store.frames.insert(7, Row::Frame(frame(7, Some(8), vec![])));
    let orphan = refused(&mut store, 7);
    assert_eq!(orphan, EditError::NamedParentNotFound(8));
    assert_eq!(orphan.message(), "Parent frame 8 not found");
    let mut anchor = frame(7, Some(1), vec![]);
    anchor.table = Some(1);
    store.frames.insert(7, Row::Frame(anchor));
    assert_eq!(refused(&mut store, 7), EditError::TableAnchorFrame);
}

#[test]
fn lifting_a_block_out_cuts_its_frame_in_two() {
    let mut store = document(&["one", "two", "three", "four"]);
    let mut wraps = WrapBlocksInFrameUseCase::new();
    wraps.execute(&mut store, &wrap(1, 3), 1).unwrap();
    let mut case = UnwrapBlockFromFrameUseCase::new();
    let answer = case
        .execute(&mut store, &UnwrapBlockFromFrameDto { block_id: 2 }, 5)
        .unwrap();
    assert_eq!(answer.new_position, 4);
    assert_eq!(frame_of(&store, 1).child_order, vec![-2, 2, -3, 4]);
    assert_eq!(frame_of(&store, 2).child_order, vec![1]);
    assert_eq!(frame_of(&store, 3).child_order, vec![3]);
    assert_eq!(frame_of(&store, 3).format.is_blockquote, Some(true));
    assert_eq!(
        collect_block_ids_recursive(&store, 1),
        Ok(vec![1, 2, 3, 4])
    );
    case.undo(&mut store).unwrap();
    assert_eq!(frame_of(&store, 2).child_order, vec![1, 2, 3]);
    case.redo(&mut store, 6).unwrap();
    assert_eq!(frame_of(&store, 1).child_order, vec![-2, 2, -4, 4]);
}

#[test]
fn lifting_the_only_block_out_removes_its_frame() {
    let mut store = document(&["one", "two"]);
    let mut wraps = WrapBlocksInFrameUseCase::new();
    wraps.execute(&mut store, &wrap(2, 2), 1).unwrap();
    let mut case = UnwrapBlockFromFrameUseCase::new();
    case.execute(&mut store, &UnwrapBlockFromFrameDto { block_id: 2 }, 5)
        .unwrap();
    assert_eq!(frame_of(&store, 1).child_order, vec![1, 2]);
    assert_eq!(frame_of(&store, 1).blocks, vec![1, 2]);
    assert!(store.frames.get(&2).is_none());
    assert_eq!(document_of(&store).frames, vec![1]);
}

#[test]
fn lifting_a_block_that_is_in_no_inner_frame_is_refused() {
    let mut store = document(&["one"]);
    let mut case = UnwrapBlockFromFrameUseCase::new();
    let mut refused = |block_id| {
        case.execute(&mut store, &UnwrapBlockFromFrameDto { block_id }, 1)
            .unwrap_err()
    };
    assert_eq!(refused(1), EditError::BlockInRootFrame);
    assert_eq!(refused(4), EditError::BlockNotFound);
    assert_eq!(
        EditError::BlockInRootFrame.message(),
        "Cannot unwrap a block from the root frame"
    );
}

#[test]
fn an_image_takes_one_character_and_moves_what_is_behind_it() {
    let mut store = document(&["héllo", "two"]);
    let bold = CharacterFormat {
        font_bold: Some(true),
        ..CharacterFormat::default()
    };
    store.format_runs.insert(
        1,
        Row::FormatRuns(vec![FormatRun {
            byte_start: 3,
            byte_end: 6,
            format: bold,
        }]),
    );
    store.block_footnote_refs.insert(
        1,
        Row::FootnoteRefs(vec![FootnoteRefAnchor {
            byte_offset: 4,
            label: "n".to_string(),
            format: CharacterFormat::default(),
        }]),
    );
    let mut case = InsertImageUseCase::new();
    let answer = case.execute(&mut store, &image(2), 33).unwrap();
    assert_eq!(answer.new_position, 3);
    assert_eq!(answer.element_id, synth_element_id(1, 3) as i64);

    assert_eq!(store.rope.to_string(), "hé\u{FFFC}llo\ntwo");
    assert_eq!(store.block_content(1), "hé\u{FFFC}llo");
    assert_eq!(store.block_content(2), "two");
    let images = get_block_images(&store, 1);
    assert_eq!(images.len(), 1);
    assert_eq!(images[0].byte_offset, 3);
    assert_eq!(images[0].name, "cat.png");
    assert_eq!((images[0].width, images[0].height), (64, 48));
    assert_eq!(images[0].quality, 100);
    let runs = get_format_runs(&store, 1);
    assert_eq!((runs[0].byte_start, runs[0].byte_end), (6, 9));
    assert_eq!(get_block_footnote_refs(&store, 1)[0].byte_offset, 7);
    assert_eq!(position_of(&store, 2), 7);
    assert_eq!(document_of(&store).character_count, 10);

    case.undo(&mut store).unwrap();
    assert_eq!(store.block_content(1), "héllo");
    assert!(get_block_images(&store, 1).is_empty());
    assert_eq!(position_of(&store, 2), 6);
    case.redo(&mut store, 34).unwrap();
    assert_eq!(store.block_content(1), "hé\u{FFFC}llo");
}

#[test]
fn images_of_a_block_stay_in_the_order_of_its_text() {
    let mut store = document(&["abc"]);
    let mut case = InsertImageUseCase::new();
    for position in [3, 0, 2] {
        case.execute(&mut store, &image(position), 1).unwrap();
    }
    assert_eq!(store.block_content(1), "\u{FFFC}a\u{FFFC}bc\u{FFFC}");
    let offsets: Vec<u32> = get_block_images(&store, 1)
        .iter()
        .map(|i| i.byte_offset)
        .collect();
    assert_eq!(offsets, vec![0, 4, 9]);

    let pieces = addressable_inline_pieces_for_block(
        &store,
        &Block {
            id: 1,
            created_at: 0,
            updated_at: 0,
            document_position: 0,
        },
        &store.block_content(1),
    );
    let bounds: Vec<(u32, u32)> = pieces.iter().map(|p| (p.start, p.end)).collect();
    assert_eq!(bounds, vec![(0, 1), (1, 2), (2, 3), (3, 5), (5, 6)]);
    assert_eq!(
        inline_segments_for_block(&store, 1, &store.block_content(1)).len(),
        5
    );
}

#[test]
fn an_image_that_cannot_be_is_refused_with_a_reason() {
    let mut store = document(&["abc"]);
    let mut case = InsertImageUseCase::new();
    let mut refused = |store: &mut RopeStore, dto: InsertImageDto| {
        case.execute(store, &dto, 1).unwrap_err()
    };
    let mut selection = image(1);
    selection.anchor = 2;
    assert_eq!(
        refused(&mut store, selection),
        EditError::SelectionNotSupported
    );
    let mut flat = image(1);
    flat.height = 0;
    let bad = refused(&mut store, flat);
    assert_eq!(bad, EditError::BadDimensions(64, 0));
    assert_eq!(bad.message(), "Image dimensions must be positive (got 64x0)");
    let mut fine = image(1);
    fine.quality = 101;
    let bad = refused(&mut store, fine);
    assert_eq!(bad, EditError::BadQuality(101));
    assert_eq!(
        bad.message(),
        "Image quality must be within 1..=100 (got 101)"
    );
    assert_eq!(store.block_content(1), "abc");
    let mut empty = document(&[]);
    assert_eq!(refused(&mut empty, image(0)), EditError::NoBlocks);
}

#[test]
fn a_table_frame_stands_for_its_cells_row_by_row() {
    let mut store = document(&["one", "a", "b", "c", "last"]);
    store
        .frames
        .insert(1, Row::Frame(frame(1, None, vec![1, -2, 5])));
    let mut anchor = frame(2, Some(1), vec![]);
    anchor.table = Some(9);
    store.frames.insert(2, Row::Frame(anchor));
    store.tables.insert(
        9,
        Row::Table(Table {
            id: 9,
            cells: vec![3, 1, 2],
        }),
    );
    for (id, row, column, block) in [(1, 0, 1, 3), (2, 1, 0, 4), (3, 0, 0, 2)] {
        store.table_cells.insert(
            id,
            Row::TableCell(TableCell {
                id,
                row,
                column,
                cell_frame: Some(10 + id),
            }),
        );
        store
            .frames
            .insert(10 + id, Row::Frame(frame(10 + id, None, vec![block])));
    }
    assert_eq!(
        collect_block_ids_recursive(&store, 1),
        Ok(vec![1, 2, 3, 4, 5])
    );
}

/// A frame that stands for a table of one cell.
fn with_table(mut store: RopeStore, id: u64, cell_frame: u64) -> RopeStore {
    let mut holder = frame(id, Some(1), Vec::new());
    holder.table = Some(1);
    store.frames.insert(id, Row::Frame(holder));
    store.tables.insert(1, Row::Table(Table { id: 1, cells: vec![1] }));
    store.table_cells.insert(
        1,
        Row::TableCell(TableCell {
            id: 1,
            row: 0,
            column: 0,
            cell_frame: Some(cell_frame),
        }),
    );
    store
}

#[test]
fn a_frame_that_holds_itself_is_found() {
    let mut store = document(&["one", "two"]);
    assert!(frames_are_sound(&store) && flow_is_sound(&store));
    // Frames in one another, and one that is not there.
    for id in 2..40 {
        store
            .frames
            .insert(id, Row::Frame(frame(id, None, vec![-(id as i64 + 1), 1, -1])));
    }
    assert!(frames_are_sound(&store) && flow_is_sound(&store));
    // The last of them holds the first.
    store
        .frames
        .insert(40, Row::Frame(frame(40, None, vec![-2])));
    assert!(!frames_are_sound(&store) && !flow_is_sound(&store));
    let mut selfish = document(&["one"]);
    selfish
        .frames
        .insert(1, Row::Frame(frame(1, None, vec![1, -1])));
    assert!(!frames_are_sound(&selfish));
    // As the cell of a table it counts for the flow alone.
    let mut table = with_table(document(&["one"]), 2, 3);
    table.frames.insert(3, Row::Frame(frame(3, Some(2), vec![])));
    assert!(frames_are_sound(&table) && flow_is_sound(&table));
    let circle = with_table(document(&["one"]), 2, 2);
    assert!(frames_are_sound(&circle) && !flow_is_sound(&circle));
}

#[test]
fn frame_ids_leave_room_for_a_sign() {
    let mut store = document(&["one"]);
    assert!(frame_ids_are_sound(&store));
    store.counters.insert("frame".to_string(), i64::MAX as u64);
    assert!(frame_ids_are_sound(&store));
    store.counters.insert("frame".to_string(), i64::MAX as u64 + 1);
    assert!(!frame_ids_are_sound(&store));
    let mut store = document(&["one"]);
    let last = i64::MAX as u64;
    store.frames.insert(last, Row::Frame(frame(last, None, vec![])));
    assert!(frame_ids_are_sound(&store));
    store
        .frames
        .insert(last + 1, Row::Frame(frame(last + 1, None, vec![])));
    assert!(!frame_ids_are_sound(&store));
}

#[test]
fn the_text_has_to_hold_the_blocks() {
    let mut store = document(&["one", "", "two"]);
    assert!(text_is_sound(&store) && text_is_sound(&RopeStore::new()));
    store.rope.remove(0..1);
    assert!(!text_is_sound(&store));
    let mut store = document(&["one", "two"]);
    store.block_offsets.entries[1].start = 2;
    assert!(!text_is_sound(&store));
    let mut store = document(&["one", "two"]);
    store.block_offsets.entries[0].start = usize::MAX;
    assert!(!text_is_sound(&store));
}

#[test]
fn a_savepoint_gives_the_store_back_with_its_counters() {
    let mut store = document(&["one"]);
    let saved = store.create_savepoint();
    let again = store.create_savepoint();
    assert_eq!((saved, again), (0, 1));
    assert_eq!(store.next_id("block"), 1);
    assert_eq!(store.next_id("block"), 2);
    assert_eq!(store.next_id("frame"), 2);
    store.rope.insert(0, "more ");
    store.frames.remove(&1);
    store.discard_savepoint(again);
    store.restore_savepoint(saved);
    assert_eq!(store.rope.to_string(), "one");
    assert_eq!(frame_of(&store, 1).child_order, vec![1]);
    assert_eq!(store.next_id("frame"), 2);
}

#[test]
fn a_snapshot_is_not_changed_by_later_edits() {
    let mut store = document(&["one"]);
    let snapshot = store.store_snapshot();
    store.next_id("frame");
    store.rope.insert(3, " and more");
    store.blocks.remove(&1);
    store.restore_store_snapshot(&snapshot);
    assert_eq!(store.rope.to_string(), "one");
    assert_eq!(position_of(&store, 1), 0);
    assert_eq!(store.counters.get("frame"), Some(&3));
}

#[test]
fn a_position_comes_from_the_text_where_it_holds_the_block() {
    let store = document(&["one", "two"]);
    let stale = Block {
        id: 2,
        created_at: 0,
        updated_at: 0,
        document_position: 99,
    };
    assert_eq!(block_document_position(&stale, &store), 4);
    let unknown = Block { id: 7, ..stale };
    assert_eq!(block_document_position(&unknown, &store), 99);
}
