//! What inserting an image keeps of the block it goes to, and of the others.
use vstd::prelude::*;
use vstd::utf8::{
    encode_utf8, encode_utf8_valid_utf8, is_char_boundary_iff_not_is_continuation_byte,
};

use crate::database::block_offset_index::{
    stretch_from, stretch_of, stretched, stretching_keeps_the_fit, BlockOffset,
};
use crate::database::rope_store::{
    block_text, text_is_indexed, with_block_text_inserted, StoreModel,
};
use crate::document_editing::insert_image_uc::{
    first_past, new_anchor, with_anchor, InsertImageModel,
};
use crate::entities::EntityId;
use crate::format_runs::{inserted, well_formed, RunModel};
use crate::inline_pieces::{
    all_anchors, inserted_images, inserted_notes, sentinel_bytes, AnchorModel, ImageModel,
    NoteModel,
};
use crate::parser_tools::inline_laws::{
    apart, cut_stays, ends_are_cuts, objects_stand, one_more_stands, sentinel_appended,
    sentinel_stays,
};
use crate::piece_laws::sentinels_are_whole;
use crate::run_laws::insert_keeps_well_formed;
use crate::text::{byte_len, encode_utf8_concat, is_cut};

verus! {

proof fn stretching_keeps_places(
    entries: Seq<BlockOffset>,
    k: int,
    n: int,
    block_id: EntityId,
    i: int,
)
    requires
        0 <= i,
    ensures
        stretch_from(stretched(entries, k, n), block_id, i) == stretch_from(entries, block_id, i),
    decreases entries.len() - i,
{
    if i < entries.len() {
        stretching_keeps_places(entries, k, n, block_id, i + 1);
    }
}

proof fn stretch_is_there(entries: Seq<BlockOffset>, block_id: EntityId, i: int)
    requires
        0 <= i,
    ensures
        stretch_from(entries, block_id, i) matches Some(k) ==> i <= k < entries.len()
            && entries[k].block_id == block_id,
    decreases entries.len() - i,
{
    if i < entries.len() {
        stretch_is_there(entries, block_id, i + 1);
    }
}

/// Text inserted into a block stands there and in no other block, and the text
/// stays indexed.
pub proof fn inserted_text_is_the_blocks(
    store: StoreModel,
    block_id: EntityId,
    at: int,
    text: Seq<char>,
    other: EntityId,
)
    requires
        text_is_indexed(store),
        stretch_of(store.block_offsets, block_id) is Some,
        0 <= at <= block_text(store, block_id).len(),
        store.text.len() + text.len() <= usize::MAX,
    ensures
        block_text(with_block_text_inserted(store, block_id, at, text), other) == if other
            == block_id {
            block_text(store, other).take(at) + text + block_text(store, other).skip(at)
        } else {
            block_text(store, other)
        },
        text_is_indexed(with_block_text_inserted(store, block_id, at, text)),
{
    let entries = store.block_offsets;
    let after = with_block_text_inserted(store, block_id, at, text);
    let n = text.len() as int;
    let k = stretch_of(entries, block_id)->0;
    stretch_is_there(entries, block_id, 0);
    stretch_is_there(entries, other, 0);
    stretching_keeps_places(entries, k, n, other, 0);
    stretching_keeps_the_fit(entries, k, n, store.text.len() as int);
    assert(entries[k].start + entries[k].len <= store.text.len());
    if let Some(j) = stretch_of(entries, other) {
        assert(entries[j].start + entries[j].len <= store.text.len());
        if j == k {
            assert(block_text(after, other) =~= block_text(store, other).take(at) + text
                + block_text(store, other).skip(at));
        } else if j < k {
            assert(entries[j].start + entries[j].len <= entries[k].start);
            assert(block_text(after, other) =~= block_text(store, other));
        } else {
            assert(entries[k].start + entries[k].len <= entries[j].start);
            assert(block_text(after, other) =~= block_text(store, other));
        }
    }
}

/// The position of an object after text was inserted.
spec fn moved(offset: int, byte: int) -> int {
    if offset >= byte {
        offset + 3
    } else {
        offset
    }
}

/// An object has its sentinel where it has moved to.
proof fn moved_object_stands(text: Seq<char>, offset: int, at: int)
    requires
        0 <= offset <= text.len(),
        is_cut(text, at),
        sentinel_bytes(text, at) == 3,
    ensures
        ({
            let byte = byte_len(text.take(offset)) as int;
            let new = text.take(offset) + seq!['\u{FFFC}'] + text.skip(offset);
            &&& is_cut(new, moved(at, byte))
            &&& sentinel_bytes(new, moved(at, byte)) == 3
            &&& at >= byte || at + 3 <= byte
        }),
{
    let head = text.take(offset);
    let tail = text.skip(offset);
    let mark = seq!['\u{FFFC}'];
    let byte = byte_len(head) as int;
    let new = head + mark + tail;
    assert(head + tail =~= text);
    ends_are_cuts(head);
    cut_stays(head, tail, byte);
    sentinels_are_whole(text, at, byte);
    encode_utf8_concat(head, tail);
    encode_utf8_concat(head, mark);
    encode_utf8_concat(head + mark, tail);
    sentinel_appended(head);
    assert(head.push('\u{FFFC}') =~= head + mark);
    let bytes = encode_utf8(text);
    let after = encode_utf8(new);
    encode_utf8_valid_utf8(text);
    encode_utf8_valid_utf8(new);
    let to = moved(at, byte);
    assert(after.subrange(to, to + 3) =~= bytes.subrange(at, at + 3));
    is_char_boundary_iff_not_is_continuation_byte(bytes, at);
    is_char_boundary_iff_not_is_continuation_byte(after, to);
    assert(after[to] == after.subrange(to, to + 3)[0]);
    assert(bytes[at] == bytes.subrange(at, at + 3)[0]);
}

/// Whether images stand in the order of the text.
pub open spec fn images_sorted(images: Seq<ImageModel>) -> bool {
    forall|i: int, j: int|
        0 <= i < j < images.len() ==> (#[trigger] images[i]).offset < (#[trigger] images[j]).offset
}

proof fn first_past_bounds(images: Seq<ImageModel>, byte: int, i: int)
    requires
        0 <= i <= images.len(),
    ensures
        i <= first_past(images, byte, i) <= images.len(),
        forall|k: int| i <= k < first_past(images, byte, i) ==> (#[trigger] images[k]).offset <= byte,
        first_past(images, byte, i) < images.len() ==> images[first_past(images, byte, i)].offset
            > byte,
    decreases images.len() - i,
{
    if i < images.len() && images[i].offset <= byte {
        first_past_bounds(images, byte, i + 1);
    }
}

/// Inserting an image keeps its block sound: the runs stay well formed, the images
/// stay in the order of the text, and every object, the new image among them, has
/// a U+FFFC of its own.
pub proof fn image_keeps_the_block_sound(
    text: Seq<char>,
    runs: Seq<RunModel>,
    images: Seq<ImageModel>,
    notes: Seq<NoteModel>,
    offset: int,
    dto: InsertImageModel,
)
    requires
        0 <= offset <= text.len(),
        well_formed(runs, byte_len(text) as int),
        objects_stand(text, all_anchors(images, notes)),
        images_sorted(images),
    ensures
        ({
            let byte = byte_len(text.take(offset)) as int;
            let new = text.take(offset) + seq!['\u{FFFC}'] + text.skip(offset);
            let shown = with_anchor(images, new_anchor(dto, byte));
            &&& new.len() == text.len() + 1
            &&& well_formed(inserted(runs, byte, 3), byte_len(new) as int)
            &&& images_sorted(shown)
            &&& shown.contains(new_anchor(dto, byte))
            &&& objects_stand(new, all_anchors(shown, inserted_notes(notes, byte, 3)))
        }),
{
    let head = text.take(offset);
    let tail = text.skip(offset);
    let mark = seq!['\u{FFFC}'];
    let byte = byte_len(head) as int;
    let new = head + mark + tail;
    let anchor = new_anchor(dto, byte);
    let shifted = inserted_images(images, byte, 3);
    let at = first_past(shifted, byte, 0);
    let shown = with_anchor(images, anchor);
    let old = all_anchors(images, notes);
    let kept = all_anchors(shifted, inserted_notes(notes, byte, 3));
    assert(head + tail =~= text);
    encode_utf8_concat(head, tail);
    encode_utf8_concat(head, mark);
    encode_utf8_concat(head + mark, tail);
    sentinel_appended(head);
    assert(head.push('\u{FFFC}') =~= head + mark);
    insert_keeps_well_formed(runs, byte, 3, byte_len(text) as int);
    first_past_bounds(shifted, byte, 0);
    // The objects that were there.
    assert forall|i: int| 0 <= i < old.len() implies (#[trigger] kept[i]).offset() == moved(
        old[i].offset(),
        byte,
    ) && is_cut(new, kept[i].offset()) && sentinel_bytes(new, kept[i].offset()) == 3 && (
    old[i].offset() >= byte || old[i].offset() + 3 <= byte) by {
        assert(is_cut(text, old[i].offset()));
        moved_object_stands(text, offset, old[i].offset());
    }
    assert(objects_stand(new, kept)) by {
        assert forall|i: int, j: int| 0 <= i < j < kept.len() implies apart(
            #[trigger] kept[i],
            #[trigger] kept[j],
        ) by {
            assert(apart(old[i], old[j]));
        }
    }
    // The new one.
    ends_are_cuts(head);
    cut_stays(head, mark, byte);
    cut_stays(head + mark, tail, byte);
    sentinel_stays(head + mark, tail, byte);
    assert forall|i: int| 0 <= i < kept.len() implies apart(
        #[trigger] kept[i],
        AnchorModel::Image(anchor),
    ) by {
        assert(kept[i].offset() == moved(old[i].offset(), byte));
    }
    one_more_stands(new, kept, at, AnchorModel::Image(anchor));
    assert(all_anchors(shown, inserted_notes(notes, byte, 3)) =~= kept.insert(
        at,
        AnchorModel::Image(anchor),
    ));
    assert(shown[at] == anchor);
    assert forall|i: int, j: int| 0 <= i < j < shown.len() implies (#[trigger] shown[i]).offset < (
    #[trigger] shown[j]).offset by {
        let a = if i < at {
            i
        } else {
            i - 1
        };
        let b = if j < at {
            j
        } else {
            j - 1
        };
        if i != at && j != at {
            assert(shown[i] == shifted[a] && shown[j] == shifted[b]);
            assert(images[a].offset < images[b].offset);
        } else if i == at {
            assert(shown[j] == shifted[b]);
            assert(shifted[at].offset > byte);
            if b > at {
                assert(images[at].offset < images[b].offset);
            }
        } else {
            assert(shown[i] == shifted[a]);
            assert(shifted[a].offset <= byte);
            assert(kept[a] == AnchorModel::Image(shifted[a]));
            assert(apart(kept[a], AnchorModel::Image(anchor)));
        }
    }
}

} // verus!
