//! What a change of a block's text does to its formats and objects, stated over bytes.
use vstd::prelude::*;

use crate::format_runs::{
    covered, covering, overlap, replaced, shift_run, FormatModel, ReplaceFormatPolicy, RunModel,
};
use crate::inline_pieces::{
    captured_formats, deleted_images, element_id, piece_segment, shift_image, split_images,
    split_notes, ContentModel, ImageModel, NoteModel, PieceModel,
};
use crate::run_laws::{
    canonical, covering_format_is_worn_throughout, format_at, replace_dresses_as_the_policy_says,
    widest_is_the_earliest_maximum,
};
use crate::text::byte_slice;

verus! {

// ─── Replacing ───────────────────────────────────────────────────────

/// How many bytes of a run lie in a range.
pub open spec fn bytes_within(run: RunModel, start: int, end: int) -> int {
    let from = if run.start > start {
        run.start
    } else {
        start
    };
    let to = if run.end < end {
        run.end
    } else {
        end
    };
    if from < to {
        to - from
    } else {
        0
    }
}

/// A run overlaps a range in the bytes that both hold, and runs cover as many of it as they
/// overlap together.
pub proof fn overlaps_are_counted_in_bytes(
    runs: Seq<RunModel>,
    run: RunModel,
    start: int,
    end: int,
)
    requires
        start <= end,
    ensures
        overlap(run, start, end) == bytes_within(run, start, end),
        covered(Seq::empty(), start, end) == 0,
        covered(runs.push(run), start, end) == covered(runs, start, end) + bytes_within(
            run,
            start,
            end,
        ),
{
    assert(runs.push(run).drop_last() =~= runs);
}

/// New text wears what the policy of its replacement says. Where it inherits, that is what
/// the byte before it wears; where nothing is preserved, nothing; where a format is
/// preserved if the whole range wore it, that format, or else what the byte before it
/// wears. Everything around it wears what it wore.
pub proof fn new_text_wears_what_the_policy_says(
    runs: Seq<RunModel>,
    start: int,
    end: int,
    n: int,
    format: FormatModel,
    byte: int,
)
    requires
        canonical(runs),
        start <= end,
        0 <= n,
        start <= byte < start + n,
    ensures
        ({
            let inherit = replaced(runs, start, end, n, ReplaceFormatPolicy::InheritPreceding);
            let nothing = replaced(runs, start, end, n, ReplaceFormatPolicy::PreserveNothing);
            let whole = replaced(runs, start, end, n, ReplaceFormatPolicy::PreserveIfFullyCovered);
            let all_wear = start < end && forall|b: int|
                start <= b < end ==> #[trigger] format_at(runs, b) == Some(format);
            let is_mixed = start == end || format_at(runs, start) is None || exists|b: int|
                start <= b < end && #[trigger] format_at(runs, b) != format_at(runs, start);
            &&& format_at(inherit, byte) == format_at(runs, start - 1)
            &&& format_at(nothing, byte) is None
            &&& all_wear ==> format_at(whole, byte) == Some(format)
            &&& is_mixed ==> format_at(whole, byte) == format_at(runs, start - 1)
        }),
{
    replace_dresses_as_the_policy_says(
        runs,
        start,
        end,
        n,
        ReplaceFormatPolicy::InheritPreceding,
        byte,
    );
    replace_dresses_as_the_policy_says(
        runs,
        start,
        end,
        n,
        ReplaceFormatPolicy::PreserveNothing,
        byte,
    );
    replace_dresses_as_the_policy_says(
        runs,
        start,
        end,
        n,
        ReplaceFormatPolicy::PreserveIfFullyCovered,
        byte,
    );
    covering_format_is_worn_throughout(runs, start, end, format);
    if let Some(worn) = covering(runs, start, end) {
        covering_format_is_worn_throughout(runs, start, end, worn);
        assert(format_at(runs, start) == Some(worn));
    }
}

/// Where the dominant run is kept, new text wears the format of the run that most of the
/// range wore, the earliest of several; it wears none where more of the range was plain. A
/// range that is empty has no dominant run, and new text in it wears what the byte before
/// it wears.
pub proof fn new_text_wears_the_dominant_format(
    runs: Seq<RunModel>,
    start: int,
    end: int,
    n: int,
    i: int,
    byte: int,
)
    requires
        canonical(runs),
        start <= end,
        0 <= n,
        start <= byte < start + n,
    ensures
        ({
            let new = replaced(runs, start, end, n, ReplaceFormatPolicy::KeepDominantRun);
            let plain = end - start - covered(runs, start, end);
            let is_widest = 0 <= i < runs.len() && bytes_within(runs[i], start, end) > 0 && (
            forall|j: int|
                0 <= j < runs.len() ==> bytes_within(#[trigger] runs[j], start, end)
                    <= bytes_within(runs[i], start, end)) && (forall|j: int|
                0 <= j < i ==> bytes_within(#[trigger] runs[j], start, end) < bytes_within(
                    runs[i],
                    start,
                    end,
                ));
            &&& start == end ==> format_at(new, byte) == format_at(runs, start - 1)
            &&& start < end && is_widest && bytes_within(runs[i], start, end) >= plain
                ==> format_at(new, byte) == Some(runs[i].format)
            &&& start < end && is_widest && bytes_within(runs[i], start, end) < plain ==> format_at(
                new,
                byte,
            ) is None
            &&& start < end && (forall|j: int|
                0 <= j < runs.len() ==> bytes_within(#[trigger] runs[j], start, end) == 0)
                ==> format_at(new, byte) is None
        }),
{
    replace_dresses_as_the_policy_says(
        runs,
        start,
        end,
        n,
        ReplaceFormatPolicy::KeepDominantRun,
        byte,
    );
    widest_is_the_earliest_maximum(runs, start, end);
    assert forall|j: int| 0 <= j < runs.len() implies overlap(#[trigger] runs[j], start, end)
        == bytes_within(runs[j], start, end) by {}
}

// ─── Shifting ────────────────────────────────────────────────────────

/// A shift moves the runs and images that begin at its threshold or behind it, and leaves
/// those before it, and what they wear.
pub proof fn shifts_move_what_is_behind(
    run: RunModel,
    image: ImageModel,
    threshold: int,
    delta: int,
)
    requires
        0 <= run.start + delta,
        run.start <= run.end,
        run.end + delta < 0x1_0000_0000,
        0 <= image.offset + delta < 0x1_0000_0000,
    ensures
        run.start >= threshold ==> shift_run(run, threshold, delta) == (RunModel {
            start: run.start + delta,
            end: run.end + delta,
            format: run.format,
        }),
        run.start < threshold ==> shift_run(run, threshold, delta) == run,
        image.offset >= threshold ==> shift_image(image, threshold, delta) == (ImageModel {
            offset: image.offset + delta,
            ..image
        }),
        image.offset < threshold ==> shift_image(image, threshold, delta) == image,
{
}

// ─── Objects ─────────────────────────────────────────────────────────

proof fn deletions_add_up(a: Seq<ImageModel>, b: Seq<ImageModel>, start: int, end: int)
    ensures
        deleted_images(a + b, start, end) == deleted_images(a, start, end) + deleted_images(
            b,
            start,
            end,
        ),
    decreases b.len(),
{
    if b.len() == 0 {
        assert(a + b =~= a);
        assert(deleted_images(a, start, end) + deleted_images(b, start, end) =~= deleted_images(
            a,
            start,
            end,
        ));
    } else if start < end {
        deletions_add_up(a, b.drop_last(), start, end);
        assert((a + b).drop_last() =~= a + b.drop_last());
        assert((a + b).last() == b.last());
        assert(deleted_images(a + b, start, end) =~= deleted_images(a, start, end)
            + deleted_images(b, start, end));
    }
}

/// Deleting bytes drops the images that stand in them, moves those behind up by as many, and
/// leaves those before. The others keep their order.
pub proof fn deleting_drops_what_is_within(
    before: Seq<ImageModel>,
    image: ImageModel,
    behind: Seq<ImageModel>,
    start: int,
    end: int,
)
    requires
        start <= end,
    ensures
        ({
            let all = deleted_images(before + seq![image] + behind, start, end);
            let a = deleted_images(before, start, end);
            let b = deleted_images(behind, start, end);
            &&& start <= image.offset < end ==> all == a + b
            &&& image.offset < start ==> all == a + seq![image] + b
            &&& image.offset >= end ==> all == a + seq![
                ImageModel { offset: image.offset - (end - start), ..image },
            ] + b
        }),
        deleted_images(Seq::empty(), start, end).len() == 0,
{
    deletions_add_up(before, seq![image], start, end);
    deletions_add_up(before + seq![image], behind, start, end);
    let none = Seq::<ImageModel>::empty();
    assert(seq![image].drop_last() =~= none);
    assert(deleted_images(none, start, end) =~= none);
    let one = deleted_images(seq![image], start, end);
    let a = deleted_images(before, start, end);
    let b = deleted_images(behind, start, end);
    if start <= image.offset < end {
        assert(one =~= none);
        assert(a + none + b =~= a + b);
    } else if image.offset < start {
        assert(one =~= seq![image]);
    } else {
        assert(one =~= seq![ImageModel { offset: image.offset - (end - start), ..image }]);
    }
}

/// Splitting a block leaves the objects before the cut to the left half, and gives those at
/// it and behind it to the right one, counted from the cut.
pub proof fn splitting_parts_at_the_cut(images: Seq<ImageModel>, notes: Seq<NoteModel>, at: int)
    ensures
        forall|i: int|
            0 <= i < split_images(images, at).0.len() ==> (#[trigger] split_images(
                images,
                at,
            ).0[i]).offset < at,
        forall|i: int|
            0 <= i < split_images(images, at).1.len() ==> (#[trigger] split_images(
                images,
                at,
            ).1[i]).offset >= 0,
        split_images(images, at).0.len() + split_images(images, at).1.len() == images.len(),
        forall|i: int|
            0 <= i < split_notes(notes, at).0.len() ==> (#[trigger] split_notes(
                notes,
                at,
            ).0[i]).offset < at,
        forall|i: int|
            0 <= i < split_notes(notes, at).1.len() ==> (#[trigger] split_notes(
                notes,
                at,
            ).1[i]).offset >= 0,
        split_notes(notes, at).0.len() + split_notes(notes, at).1.len() == notes.len(),
    decreases images.len() + notes.len(),
{
    if images.len() > 0 && notes.len() > 0 {
        splitting_parts_at_the_cut(images.drop_last(), notes.drop_last(), at);
    } else if images.len() > 0 {
        splitting_parts_at_the_cut(images.drop_last(), notes, at);
    } else if notes.len() > 0 {
        splitting_parts_at_the_cut(images, notes.drop_last(), at);
    }
}

proof fn captures_add_up(a: Seq<ImageModel>, b: Seq<ImageModel>, start: int, end: int)
    ensures
        captured_formats(a + b, start, end) == captured_formats(a, start, end) + captured_formats(
            b,
            start,
            end,
        ),
    decreases b.len(),
{
    if b.len() == 0 {
        assert(a + b =~= a);
        assert(captured_formats(a, start, end) + captured_formats(b, start, end)
            =~= captured_formats(a, start, end));
    } else {
        captures_add_up(a, b.drop_last(), start, end);
        assert((a + b).drop_last() =~= a + b.drop_last());
        assert((a + b).last() == b.last());
        assert(captured_formats(a + b, start, end) =~= captured_formats(a, start, end)
            + captured_formats(b, start, end));
    }
}

/// The formats of the images in a range are captured, each with its byte and in order, and
/// of no other.
pub proof fn formats_are_captured_within(
    before: Seq<ImageModel>,
    image: ImageModel,
    behind: Seq<ImageModel>,
    start: int,
    end: int,
)
    ensures
        ({
            let all = captured_formats(before + seq![image] + behind, start, end);
            let a = captured_formats(before, start, end);
            let b = captured_formats(behind, start, end);
            &&& start <= image.offset < end ==> all == a + seq![
                (image.offset as u32, image.format),
            ] + b
            &&& !(start <= image.offset < end) ==> all == a + b
        }),
        captured_formats(Seq::empty(), start, end).len() == 0,
{
    captures_add_up(before, seq![image], start, end);
    captures_add_up(before + seq![image], behind, start, end);
    let none = Seq::<ImageModel>::empty();
    assert(seq![image].drop_last() =~= none);
    let empty = Seq::<(u32, FormatModel)>::empty();
    assert(captured_formats(none, start, end) =~= empty);
    let one = captured_formats(seq![image], start, end);
    let a = captured_formats(before, start, end);
    let b = captured_formats(behind, start, end);
    if start <= image.offset < end {
        assert(one =~= seq![(image.offset as u32, image.format)]);
    } else {
        assert(one =~= empty);
        assert(a + empty + b =~= a + b);
    }
}

/// A segment is what its piece is: the text between its bytes in its format, or none that
/// says something; an image with all that is said of it; a footnote reference with its
/// label.
pub proof fn segments_are_their_pieces(
    text: Seq<char>,
    start: int,
    end: int,
    format: FormatModel,
    image: ImageModel,
    note: NoteModel,
)
    ensures
        ({
            let dressed = piece_segment(text, PieceModel::Text { start, end, format: Some(format) });
            let bare = piece_segment(text, PieceModel::Text { start, end, format: None });
            let picture = piece_segment(text, PieceModel::Image(image));
            let reference = piece_segment(text, PieceModel::FootnoteRef(note));
            &&& dressed.content == ContentModel::Text(byte_slice(text, start, end))
            &&& dressed.format == format
            &&& bare.content == ContentModel::Text(byte_slice(text, start, end))
            &&& bare.format.font_family is None
            &&& bare.format.font_point_size is None
            &&& bare.format.font_weight is None
            &&& bare.format.font_bold is None
            &&& bare.format.font_italic is None
            &&& bare.format.font_underline is None
            &&& bare.format.font_overline is None
            &&& bare.format.font_strikeout is None
            &&& bare.format.letter_spacing is None
            &&& bare.format.word_spacing is None
            &&& bare.format.anchor_href is None
            &&& bare.format.anchor_names.len() == 0
            &&& bare.format.is_anchor is None
            &&& bare.format.tooltip is None
            &&& bare.format.underline_style is None
            &&& bare.format.vertical_alignment is None
            &&& picture.content == (ContentModel::Image {
                name: image.name,
                alt: image.alt,
                width: image.width,
                height: image.height,
                quality: image.quality,
            })
            &&& picture.format == image.format
            &&& reference.content == (ContentModel::FootnoteRef { label: note.label })
            &&& reference.format == note.format
        }),
{
}

/// The id of a fragment holds its byte in the low 32 bits and the low 30 bits of its block's
/// id above them, and the tag that no id of the store has above those.
pub proof fn element_ids_hold_block_and_byte(block_id: int, byte: int)
    requires
        0 <= block_id,
        0 <= byte < 0x1_0000_0000,
    ensures
        element_id(block_id, byte) % 0x1_0000_0000 == byte,
        element_id(block_id, byte) / 0x1_0000_0000 % 0x4000_0000 == block_id % 0x4000_0000,
        element_id(block_id, byte) / 0x4000_0000_0000_0000 == 1,
{
}

} // verus!
