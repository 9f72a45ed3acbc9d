//! What a block stores of the spans that a reader found.
use vstd::prelude::*;
use vstd::utf8::{
    encode_scalar, encode_utf8, encode_utf8_valid_utf8,
    is_char_boundary_iff_not_is_continuation_byte, is_char_boundary_start_end_of_seq,
};

use crate::entities::CharVerticalAlignment;
use crate::format_runs::{in_order, well_formed, FormatModel};
use crate::inline_pieces::{
    all_anchors, by_offset, pieces_chars, place_anchor, sentinel_bytes, woven, AnchorModel,
    ImageModel, NoteModel,
};
use crate::parser_tools::content_parser::{
    add_span, add_spans, all_blocks, blocks_among, element_blocks, empty_span, flattened,
    inline_of, inline_only, lift_footnote, nothing_inline, row_blocks, span_format, table_blocks,
    BlockModel, ElementModel, InlineModel, SpanModel, TableModel,
};
use crate::parser_tools::djot::spans_text;
use crate::piece_laws::{
    addressable_length_is_the_text_length, anchored, anchors_are_sorted_and_complete,
    cuts_between_characters, weavable,
};
use crate::run_laws::{
    coalesce_is_canonical, coalesce_keeps_ends, coalesce_keeps_formats, format_at,
    format_at_past_end,
};
use crate::text::{byte_len, byte_len_push, encode_utf8_concat, is_cut};

verus! {

/// A position between two characters stays one where text is appended.
pub(crate) proof fn cut_stays(text: Seq<char>, more: Seq<char>, at: int)
    requires
        is_cut(text, at),
    ensures
        is_cut(text + more, at),
{
    let a = encode_utf8(text);
    let b = encode_utf8(more);
    encode_utf8_concat(text, more);
    encode_utf8_valid_utf8(text);
    encode_utf8_valid_utf8(more);
    encode_utf8_valid_utf8(text + more);
    crate::text::cut_in_range(text, at);
    if at < a.len() {
        is_char_boundary_iff_not_is_continuation_byte(a, at);
        is_char_boundary_iff_not_is_continuation_byte(a + b, at);
        assert((a + b)[at] == a[at]);
    } else if b.len() > 0 {
        is_char_boundary_start_end_of_seq(b);
        is_char_boundary_iff_not_is_continuation_byte(b, 0);
        is_char_boundary_iff_not_is_continuation_byte(a + b, at);
        assert((a + b)[at] == b[0]);
    } else {
        is_char_boundary_start_end_of_seq(a + b);
    }
}

/// The ends of a text are positions between two characters.
pub(crate) proof fn ends_are_cuts(text: Seq<char>)
    ensures
        is_cut(text, 0),
        is_cut(text, byte_len(text) as int),
{
    encode_utf8_valid_utf8(text);
    is_char_boundary_start_end_of_seq(encode_utf8(text));
}

/// A sentinel stays where it is where text is appended.
pub(crate) proof fn sentinel_stays(text: Seq<char>, more: Seq<char>, at: int)
    requires
        sentinel_bytes(text, at) == 3,
    ensures
        sentinel_bytes(text + more, at) == 3,
{
    encode_utf8_concat(text, more);
    assert(encode_utf8(text + more).subrange(at, at + 3) =~= encode_utf8(text).subrange(
        at,
        at + 3,
    ));
}

/// An appended U+FFFC is a sentinel of three bytes.
pub(crate) proof fn sentinel_appended(text: Seq<char>)
    ensures
        sentinel_bytes(text.push('\u{FFFC}'), byte_len(text) as int) == 3,
        byte_len(text.push('\u{FFFC}')) == byte_len(text) + 3,
{
    byte_len_push(text, '\u{FFFC}');
    let mark = encode_scalar('\u{FFFC}' as u32);
    let scalar: u32 = 0xFFFC;
    assert('\u{FFFC}' as u32 == scalar);
    assert(0xE0u8 | ((scalar >> 12) & 0x0F) as u8 == 0xEF) by (bit_vector)
        requires
            scalar == 0xFFFC,
    ;
    assert(0x80u8 | ((scalar >> 6) & 0x3F) as u8 == 0xBF) by (bit_vector)
        requires
            scalar == 0xFFFC,
    ;
    assert(0x80u8 | (scalar & 0x3F) as u8 == 0xBC) by (bit_vector)
        requires
            scalar == 0xFFFC,
    ;
    assert(mark =~= seq![0xEFu8, 0xBFu8, 0xBCu8]);
    let at = byte_len(text) as int;
    assert(encode_utf8(text.push('\u{FFFC}')).subrange(at, at + 3) =~= mark);
}

/// Whether the objects of a block stand apart, each at its own sentinel.
pub open spec fn objects_stand(text: Seq<char>, anchors: Seq<AnchorModel>) -> bool {
    &&& forall|i: int|
        0 <= i < anchors.len() ==> is_cut(text, (#[trigger] anchors[i]).offset())
            && sentinel_bytes(text, anchors[i].offset()) == 3
    &&& forall|i: int, j: int|
        0 <= i < j < anchors.len() ==> apart(#[trigger] anchors[i], #[trigger] anchors[j])
}

/// Whether the sentinels of two objects do not overlap.
pub open spec fn apart(a: AnchorModel, b: AnchorModel) -> bool {
    a.offset() + 3 <= b.offset() || b.offset() + 3 <= a.offset()
}

/// What holds of a block's content while spans are added to it.
spec fn sound(inline: InlineModel) -> bool {
    let end = byte_len(inline.text) as int;
    let anchors = all_anchors(inline.images, inline.footnote_refs);
    &&& in_order(inline.runs)
    &&& forall|i: int|
        0 <= i < inline.runs.len() ==> {
            let run = #[trigger] inline.runs[i];
            0 <= run.start && run.end <= end && is_cut(inline.text, run.start) && is_cut(
                inline.text,
                run.end,
            )
        }
    &&& objects_stand(inline.text, anchors)
    &&& forall|i: int| 0 <= i < anchors.len() ==> (#[trigger] anchors[i]).offset() + 3 <= end
}

/// Objects stand as before where one more is put among them, with a sentinel of
/// its own.
pub(crate) proof fn one_more_stands(text: Seq<char>, anchors: Seq<AnchorModel>, k: int, anchor: AnchorModel)
    requires
        objects_stand(text, anchors),
        0 <= k <= anchors.len(),
        is_cut(text, anchor.offset()),
        sentinel_bytes(text, anchor.offset()) == 3,
        forall|i: int| 0 <= i < anchors.len() ==> apart(#[trigger] anchors[i], anchor),
    ensures
        objects_stand(text, anchors.insert(k, anchor)),
{
    let all = anchors.insert(k, anchor);
    assert forall|i: int| 0 <= i < all.len() implies is_cut(text, (#[trigger] all[i]).offset())
        && sentinel_bytes(text, all[i].offset()) == 3 by {
        if i < k {
            assert(all[i] == anchors[i]);
        } else if i > k {
            assert(all[i] == anchors[i - 1]);
        }
    }
    assert forall|i: int, j: int| 0 <= i < j < all.len() implies apart(
        #[trigger] all[i],
        #[trigger] all[j],
    ) by {
        let a = if i < k {
            i
        } else {
            i - 1
        };
        let b = if j < k {
            j
        } else {
            j - 1
        };
        if i != k {
            assert(all[i] == anchors[a]);
        }
        if j != k {
            assert(all[j] == anchors[b]);
        }
    }
}

/// What holds of a block's content holds of it with more text.
proof fn sound_with_text(inline: InlineModel, more: Seq<char>)
    requires
        sound(inline),
    ensures
        sound((InlineModel { text: inline.text + more, ..inline })),
{
    let text = inline.text + more;
    let anchors = all_anchors(inline.images, inline.footnote_refs);
    encode_utf8_concat(inline.text, more);
    assert forall|i: int| 0 <= i < inline.runs.len() implies is_cut(
        text,
        (#[trigger] inline.runs[i]).start,
    ) && is_cut(text, inline.runs[i].end) by {
        cut_stays(inline.text, more, inline.runs[i].start);
        cut_stays(inline.text, more, inline.runs[i].end);
    }
    assert forall|i: int| 0 <= i < anchors.len() implies is_cut(
        text,
        (#[trigger] anchors[i]).offset(),
    ) && sentinel_bytes(text, anchors[i].offset()) == 3 by {
        cut_stays(inline.text, more, anchors[i].offset());
        sentinel_stays(inline.text, more, anchors[i].offset());
    }
}

proof fn sound_with_object(inline: InlineModel, image: Option<ImageModel>, note: NoteModel)
    requires
        sound(inline),
        image is Some ==> image->0.offset == byte_len(inline.text),
        image is None ==> note.offset == byte_len(inline.text),
    ensures
        sound(
            (InlineModel {
                text: inline.text.push('\u{FFFC}'),
                images: if image is Some {
                    inline.images.push(image->0)
                } else {
                    inline.images
                },
                footnote_refs: if image is Some {
                    inline.footnote_refs
                } else {
                    inline.footnote_refs.push(note)
                },
                ..inline
            }),
        ),
{
    let at = byte_len(inline.text) as int;
    let mark = seq!['\u{FFFC}'];
    let text = inline.text + mark;
    assert(text =~= inline.text.push('\u{FFFC}'));
    sound_with_text(inline, mark);
    sentinel_appended(inline.text);
    ends_are_cuts(inline.text);
    cut_stays(inline.text, mark, at);
    let old = all_anchors(inline.images, inline.footnote_refs);
    match image {
        Some(image) => {
            let anchor = AnchorModel::Image(image);
            let new = all_anchors(inline.images.push(image), inline.footnote_refs);
            assert(new =~= old.insert(inline.images.len() as int, anchor));
            one_more_stands(text, old, inline.images.len() as int, anchor);
        },
        None => {
            let anchor = AnchorModel::FootnoteRef(note);
            let new = all_anchors(inline.images, inline.footnote_refs.push(note));
            assert(new =~= old.insert(old.len() as int, anchor));
            one_more_stands(text, old, old.len() as int, anchor);
        },
    }
}

proof fn spans_are_sound(spans: Seq<SpanModel>, is_code_block: bool)
    ensures
        sound(add_spans(spans, is_code_block)),
        add_spans(spans, is_code_block).text == spans_text(spans),
    decreases spans.len(),
{
    if spans.len() > 0 {
        spans_are_sound(spans.drop_last(), is_code_block);
        let inline = add_spans(spans.drop_last(), is_code_block);
        let span = spans.last();
        let next = add_span(inline, span, is_code_block);
        assert(inline.text.push('\u{FFFC}') =~= inline.text + seq!['\u{FFFC}']);
        if span.footnote_ref is Some {
            let note = next.footnote_refs.last();
            sound_with_object(inline, None, note);
        } else if span.image is Some {
            let image = next.images.last();
            sound_with_object(inline, Some(image), arbitrary());
        } else {
            sound_with_text(inline, span.text);
            encode_utf8_concat(inline.text, span.text);
            let start = byte_len(inline.text) as int;
            let end = byte_len(next.text) as int;
            ends_are_cuts(inline.text);
            ends_are_cuts(next.text);
            cut_stays(inline.text, span.text, start);
            if next.runs != inline.runs {
                let run = next.runs.last();
                assert(next.runs == inline.runs.push(run));
                assert(in_order(next.runs)) by {
                    assert forall|i: int, j: int| 0 <= i < j < next.runs.len() implies (
                    #[trigger] next.runs[i]).end <= (#[trigger] next.runs[j]).start by {
                        if j < inline.runs.len() {
                            assert(inline.runs[i].end <= inline.runs[j].start);
                        } else {
                            assert(inline.runs[i].end <= start);
                        }
                    }
                }
            }
        }
    } else {
        assert(spans_text(spans) =~= Seq::<char>::empty());
    }
}

/// The text that a block stores of its spans is the prose that
/// [`crate::parser_tools::djot::djot_to_plain_text`] gives for them, so an offset
/// found in the one is an offset in the other.
pub proof fn stored_text_is_the_prose(spans: Seq<SpanModel>, is_code_block: bool)
    ensures
        inline_of(spans, is_code_block).text == spans_text(spans),
{
    spans_are_sound(spans, is_code_block);
}

/// The runs that a block stores of its spans are well formed.
pub proof fn stored_runs_are_well_formed(spans: Seq<SpanModel>, is_code_block: bool)
    ensures
        well_formed(
            inline_of(spans, is_code_block).runs,
            byte_len(inline_of(spans, is_code_block).text) as int,
        ),
{
    spans_are_sound(spans, is_code_block);
    let runs = add_spans(spans, is_code_block).runs;
    coalesce_is_canonical(runs);
    coalesce_keeps_ends(runs);
    if runs.len() > 0 {
        assert(runs.last() == runs[runs.len() - 1]);
    }
}

/// Each image and each footnote reference that a block stores of its spans has a
/// U+FFFC of its own in the block's text.
pub proof fn stored_objects_have_sentinels(spans: Seq<SpanModel>, is_code_block: bool)
    ensures
        objects_stand(
            inline_of(spans, is_code_block).text,
            all_anchors(
                inline_of(spans, is_code_block).images,
                inline_of(spans, is_code_block).footnote_refs,
            ),
        ),
{
    spans_are_sound(spans, is_code_block);
}

proof fn place_anchor_inserts(anchors: Seq<AnchorModel>, anchor: AnchorModel) -> (k: int)
    ensures
        0 <= k <= anchors.len(),
        place_anchor(anchors, anchor) == anchors.insert(k, anchor),
    decreases anchors.len(),
{
    if anchors.len() == 0 || anchors.last().offset() <= anchor.offset() {
        assert(anchors.push(anchor) =~= anchors.insert(anchors.len() as int, anchor));
        anchors.len() as int
    } else {
        let k = place_anchor_inserts(anchors.drop_last(), anchor);
        assert(place_anchor(anchors, anchor) =~= anchors.insert(k, anchor));
        k
    }
}

/// Objects that stand apart do so in whatever order they are listed.
proof fn ordered_objects_stand(text: Seq<char>, anchors: Seq<AnchorModel>)
    requires
        objects_stand(text, anchors),
    ensures
        objects_stand(text, by_offset(anchors)),
    decreases anchors.len(),
{
    broadcast use vstd::seq_lib::group_to_multiset_ensures;

    if anchors.len() > 0 {
        let rest = anchors.drop_last();
        let last = anchors.last();
        assert(objects_stand(text, rest)) by {
            assert forall|i: int, j: int| 0 <= i < j < rest.len() implies apart(
                #[trigger] rest[i],
                #[trigger] rest[j],
            ) by {
                assert(apart(anchors[i], anchors[j]));
            }
        }
        ordered_objects_stand(text, rest);
        anchors_are_sorted_and_complete(rest);
        let kept = by_offset(rest);
        let k = place_anchor_inserts(kept, last);
        assert forall|i: int| 0 <= i < kept.len() implies apart(#[trigger] kept[i], last) by {
            assert(kept.contains(kept[i]));
            assert(kept.to_multiset().count(kept[i]) > 0);
            assert(rest.contains(kept[i]));
            let j = choose|j: int| 0 <= j < rest.len() && rest[j] == kept[i];
            assert(apart(anchors[j], anchors[anchors.len() - 1]));
        }
        assert(last == anchors[anchors.len() - 1]);
        one_more_stands(text, kept, k, last);
    }
}

/// What a block stores of its spans can be addressed by character: its pieces,
/// text and objects, count as many characters as its text has.
pub proof fn stored_block_is_addressable(spans: Seq<SpanModel>, is_code_block: bool)
    requires
        byte_len(inline_of(spans, is_code_block).text) <= u32::MAX,
    ensures
        ({
            let inline = inline_of(spans, is_code_block);
            let anchors = by_offset(all_anchors(inline.images, inline.footnote_refs));
            &&& weavable(inline.text, inline.runs, anchors)
            &&& cuts_between_characters(inline.text, inline.runs, anchors)
            &&& anchored(inline.text, anchors)
            &&& pieces_chars(inline.text, woven(inline.text, inline.runs, anchors))
                == inline.text.len()
        }),
{
    let before = add_spans(spans, is_code_block);
    let inline = inline_of(spans, is_code_block);
    let listed = all_anchors(inline.images, inline.footnote_refs);
    let anchors = by_offset(listed);
    spans_are_sound(spans, is_code_block);
    stored_runs_are_well_formed(spans, is_code_block);
    coalesce_keeps_ends(before.runs);
    anchors_are_sorted_and_complete(listed);
    ordered_objects_stand(inline.text, listed);
    assert forall|i: int| 0 <= i < inline.runs.len() implies {
        let run = #[trigger] inline.runs[i];
        0 <= run.start && run.end <= byte_len(inline.text) && is_cut(inline.text, run.start)
            && is_cut(inline.text, run.end)
    } by {
        let (j, k) = choose|j: int, k: int|
            0 <= j < before.runs.len() && 0 <= k < before.runs.len() && inline.runs[i].start == (
            #[trigger] before.runs[j]).start && inline.runs[i].end == (
            #[trigger] before.runs[k]).end;
        assert(0 <= before.runs[j].start);
        assert(before.runs[k].end <= byte_len(inline.text));
    }
    assert forall|i: int| 0 <= i < anchors.len() implies 0 <= (#[trigger] anchors[i]).offset()
        <= byte_len(inline.text) by {
        crate::text::cut_in_range(inline.text, anchors[i].offset());
    }
    assert forall|i: int| 0 < i < anchors.len() implies anchors[i - 1].offset() + 3 <= (
    #[trigger] anchors[i]).offset() by {
        assert(apart(anchors[i - 1], anchors[i]));
        assert(anchors[i - 1].offset() <= anchors[i].offset());
    }
    addressable_length_is_the_text_length(inline.text, inline.runs, anchors);
}

// ─── What characters wear ────────────────────────────────────────────

/// Whether a format says of its characters what a span says of them: each flag that is
/// set and no other, the link where there is one, a fixed width for code. A span that is
/// both raised and lowered is raised.
pub open spec fn looks_like(format: FormatModel, span: SpanModel, is_code_block: bool) -> bool {
    &&& format.font_bold == if span.bold { Some(true) } else { None }
    &&& format.font_italic == if span.italic { Some(true) } else { None }
    &&& format.font_underline == if span.underline { Some(true) } else { None }
    &&& format.font_strikeout == if span.strikeout { Some(true) } else { None }
    &&& span.code || is_code_block ==> format.font_family == Some("monospace"@)
    &&& !span.code && !is_code_block ==> format.font_family is None
    &&& format.anchor_href == span.link_href
    &&& format.is_anchor == if span.link_href is Some { Some(true) } else { None }
    &&& span.superscript ==> format.vertical_alignment == Some(CharVerticalAlignment::SuperScript)
    &&& !span.superscript && span.subscript ==> format.vertical_alignment == Some(
        CharVerticalAlignment::SubScript,
    )
    &&& !span.superscript && !span.subscript ==> format.vertical_alignment is None
    &&& says_nothing_else(format)
}

/// Whether a format says nothing that no span can say.
pub open spec fn says_nothing_else(format: FormatModel) -> bool {
    &&& format.font_point_size is None
    &&& format.font_weight is None
    &&& format.font_overline is None
    &&& format.letter_spacing is None
    &&& format.word_spacing is None
    &&& format.anchor_names.len() == 0
    &&& format.tooltip is None
    &&& format.underline_style is None
}

/// Whether a byte wears what a span says. Where no run covers a byte, it wears a format
/// that says nothing.
pub open spec fn is_dressed(worn: Option<FormatModel>, span: SpanModel, is_code_block: bool) -> bool {
    match worn {
        Some(format) => looks_like(format, span, is_code_block),
        None => exists|format: FormatModel|
            #[trigger] looks_like(format, span, is_code_block) && format.font_family is None
                && format.font_bold is None && format.font_italic is None
                && format.font_underline is None && format.font_strikeout is None
                && format.anchor_href is None && format.vertical_alignment is None,
    }
}

/// A block stores the text of one more span behind what it stores of those before. The
/// new characters wear what the span says of them; what the others wear, and what objects
/// there are, stays.
pub proof fn characters_wear_their_span(
    before: Seq<SpanModel>,
    span: SpanModel,
    is_code_block: bool,
    byte: int,
)
    requires
        span.image is None,
        span.footnote_ref is None,
    ensures
        ({
            let old = inline_of(before, is_code_block);
            let new = inline_of(before.push(span), is_code_block);
            &&& new.text == old.text + span.text
            &&& new.images == old.images
            &&& new.footnote_refs == old.footnote_refs
            &&& byte < byte_len(old.text) ==> format_at(new.runs, byte) == format_at(
                old.runs,
                byte,
            )
            &&& byte_len(old.text) <= byte < byte_len(new.text) ==> is_dressed(
                format_at(new.runs, byte),
                span,
                is_code_block,
            )
        }),
{
    let spans = before.push(span);
    assert(spans.drop_last() =~= before);
    spans_are_sound(before, is_code_block);
    spans_are_sound(spans, is_code_block);
    let old = add_spans(before, is_code_block);
    let new = add_spans(spans, is_code_block);
    coalesce_keeps_formats(old.runs, byte);
    coalesce_keeps_formats(new.runs, byte);
    let format = span_format(span, is_code_block);
    assert(looks_like(format, span, is_code_block));
    encode_utf8_concat(old.text, span.text);
    if byte >= byte_len(old.text) {
        if old.runs.len() > 0 {
            assert(old.runs.last() == old.runs[old.runs.len() - 1]);
        }
        format_at_past_end(old.runs, byte);
    }
    if new.runs != old.runs {
        assert(new.runs.drop_last() =~= old.runs);
    }
}

/// A block stores an image as one sentinel and an anchor at its byte, with the image's
/// source, description and size, and a footnote reference as one with its label. A
/// reference is raised whatever is around it. What the characters before wear stays.
pub proof fn objects_are_anchored(
    before: Seq<SpanModel>,
    span: SpanModel,
    is_code_block: bool,
    byte: int,
)
    requires
        span.image is Some || span.footnote_ref is Some,
    ensures
        ({
            let old = inline_of(before, is_code_block);
            let new = inline_of(before.push(span), is_code_block);
            let image = new.images.last();
            let note = new.footnote_refs.last();
            &&& new.text == old.text + seq!['\u{FFFC}']
            &&& format_at(new.runs, byte) == format_at(old.runs, byte)
            &&& span.footnote_ref is Some ==> {
                &&& new.images == old.images
                &&& new.footnote_refs.len() == old.footnote_refs.len() + 1
                &&& new.footnote_refs.drop_last() == old.footnote_refs
                &&& note.offset == byte_len(old.text)
                &&& note.label == span.footnote_ref->0
                &&& looks_like(
                    note.format,
                    (SpanModel { superscript: true, ..span }),
                    is_code_block,
                )
            }
            &&& span.footnote_ref is None ==> {
                &&& new.footnote_refs == old.footnote_refs
                &&& new.images.len() == old.images.len() + 1
                &&& new.images.drop_last() == old.images
                &&& image.offset == byte_len(old.text)
                &&& image.name == span.image->0.src
                &&& image.alt == span.image->0.alt
                &&& image.width == span.image->0.width
                &&& image.height == span.image->0.height
                &&& image.quality == 100
                &&& looks_like(image.format, span, is_code_block)
            }
        }),
{
    assert(before.push(span).drop_last() =~= before);
    let old = add_spans(before, is_code_block);
    let new = add_spans(before.push(span), is_code_block);
    assert(new.text =~= old.text + seq!['\u{FFFC}']);
    if span.footnote_ref is Some {
        assert(new.footnote_refs.drop_last() =~= old.footnote_refs);
    } else {
        assert(new.images.drop_last() =~= old.images);
    }
}

/// Without spans a block stores nothing.
pub proof fn no_spans_store_nothing(is_code_block: bool)
    ensures
        ({
            let inline = inline_of(Seq::empty(), is_code_block);
            &&& inline.text.len() == 0
            &&& inline.runs.len() == 0
            &&& inline.images.len() == 0
            &&& inline.footnote_refs.len() == 0
        }),
{
    assert(add_spans(Seq::empty(), is_code_block) == nothing_inline());
}

// ─── Flat blocks ─────────────────────────────────────────────────────

proof fn table_blocks_add_up(
    a: Seq<Seq<Seq<SpanModel>>>,
    b: Seq<Seq<Seq<SpanModel>>>,
    depth: int,
)
    ensures
        table_blocks(a + b, depth) == table_blocks(a, depth) + table_blocks(b, depth),
    decreases b.len(),
{
    if b.len() == 0 {
        assert(a + b =~= a);
        assert(table_blocks(a, depth) + table_blocks(b, depth) =~= table_blocks(a, depth));
    } else {
        table_blocks_add_up(a, b.drop_last(), depth);
        assert((a + b).drop_last() =~= a + b.drop_last());
        assert((a + b).last() == b.last());
    }
}

/// The cells of a table are a block each, row by row: an ordinary paragraph of the cell's
/// spans, in as many quotes as the table is.
pub proof fn cells_are_blocks(
    above: Seq<Seq<Seq<SpanModel>>>,
    row: Seq<Seq<SpanModel>>,
    below: Seq<Seq<Seq<SpanModel>>>,
    depth: int,
)
    ensures
        table_blocks(Seq::empty(), depth).len() == 0,
        table_blocks(above + seq![row] + below, depth) == table_blocks(above, depth)
            + table_blocks(seq![row], depth) + table_blocks(below, depth),
        table_blocks(seq![row], depth).len() == row.len(),
        forall|c: int|
            0 <= c < row.len() ==> {
                let block = #[trigger] table_blocks(seq![row], depth)[c];
                &&& block.spans == row[c]
                &&& block.blockquote_depth == depth
                &&& inline_only((BlockModel { blockquote_depth: 0, ..block }))
                &&& block.marker is None
                &&& block.semantic_role is None
                &&& block.code_language is None
            },
{
    table_blocks_add_up(above, seq![row], depth);
    table_blocks_add_up(above + seq![row], below, depth);
    assert(seq![row].drop_last() =~= Seq::<Seq<Seq<SpanModel>>>::empty());
    assert(table_blocks(Seq::<Seq<Seq<SpanModel>>>::empty(), depth) =~= Seq::<BlockModel>::empty());
    assert(table_blocks(seq![row], depth) =~= row_blocks(row, depth));
}

proof fn blocks_add_up(a: Seq<ElementModel>, b: Seq<ElementModel>)
    ensures
        all_blocks(a + b) == all_blocks(a) + all_blocks(b),
    decreases b.len(),
{
    if b.len() == 0 {
        assert(a + b =~= a);
        assert(all_blocks(a) + all_blocks(b) =~= all_blocks(a));
    } else {
        blocks_add_up(a, b.drop_last());
        assert((a + b).drop_last() =~= a + b.drop_last());
        assert((a + b).last() == b.last());
    }
}

proof fn element_adds_its_blocks(
    before: Seq<ElementModel>,
    element: ElementModel,
    behind: Seq<ElementModel>,
)
    ensures
        all_blocks(before + seq![element] + behind) == all_blocks(before) + element_blocks(element)
            + all_blocks(behind),
{
    blocks_add_up(before, seq![element]);
    blocks_add_up(before + seq![element], behind);
    assert(seq![element].drop_last() =~= Seq::<ElementModel>::empty());
    assert(all_blocks(Seq::<ElementModel>::empty()) =~= Seq::<BlockModel>::empty());
    assert(all_blocks(seq![element]) =~= element_blocks(element));
}

/// Flattening keeps the blocks as they are and in order, puts the cells of a table where
/// the table was, and leaves footnotes out. Where nothing is left there is one empty
/// paragraph.
pub proof fn flattening_keeps_the_order(
    before: Seq<ElementModel>,
    block: BlockModel,
    table: TableModel,
    note: ElementModel,
    behind: Seq<ElementModel>,
)
    requires
        note is FootnoteDefinition,
    ensures
        flattened(before + seq![ElementModel::Block(block)] + behind) == all_blocks(before) + seq![
            block,
        ] + all_blocks(behind),
        all_blocks(before + seq![ElementModel::Table(table)] + behind) == all_blocks(before)
            + table_blocks(table.rows, table.blockquote_depth) + all_blocks(behind),
        all_blocks(before + seq![note] + behind) == all_blocks(before) + all_blocks(behind),
        all_blocks(Seq::empty()).len() == 0,
        all_blocks(before).len() > 0 ==> flattened(before) == all_blocks(before),
        all_blocks(before).len() == 0 ==> {
            &&& flattened(before).len() == 1
            &&& flattened(before)[0].spans == seq![empty_span()]
            &&& inline_only(flattened(before)[0])
        },
{
    element_adds_its_blocks(before, ElementModel::Block(block), behind);
    element_adds_its_blocks(before, ElementModel::Table(table), behind);
    element_adds_its_blocks(before, note, behind);
    assert(all_blocks(before) + Seq::<BlockModel>::empty() + all_blocks(behind) =~= all_blocks(
        before,
    ) + all_blocks(behind));
}

proof fn notes_add_up(a: Seq<ElementModel>, b: Seq<ElementModel>)
    ensures
        blocks_among(a + b) == blocks_among(a) + blocks_among(b),
    decreases b.len(),
{
    if b.len() == 0 {
        assert(a + b =~= a);
        assert(blocks_among(a) + blocks_among(b) =~= blocks_among(a));
    } else {
        notes_add_up(a, b.drop_last());
        assert((a + b).drop_last() =~= a + b.drop_last());
        assert((a + b).last() == b.last());
        assert(blocks_among(a + b) =~= blocks_among(a) + blocks_among(b));
    }
}

/// A footnote takes what was read since it began out of the flow and holds the blocks of it,
/// in order; a table or another footnote in it is lost.
pub proof fn notes_hold_blocks_alone(
    before: Seq<ElementModel>,
    a: Seq<ElementModel>,
    block: BlockModel,
    other: ElementModel,
    b: Seq<ElementModel>,
    label: Seq<char>,
)
    requires
        !(other is Block),
    ensures
        blocks_among(Seq::empty()).len() == 0,
        blocks_among(a + seq![ElementModel::Block(block)] + b) == blocks_among(a) + seq![block]
            + blocks_among(b),
        blocks_among(a + seq![other] + b) == blocks_among(a) + blocks_among(b),
        lift_footnote(before + a, label, before.len() as int) == before + seq![
            ElementModel::FootnoteDefinition { label, blocks: blocks_among(a) },
        ],
{
    let one = seq![ElementModel::Block(block)];
    let none = Seq::<ElementModel>::empty();
    notes_add_up(a, one);
    notes_add_up(a + one, b);
    notes_add_up(a, seq![other]);
    notes_add_up(a + seq![other], b);
    assert(blocks_among(none) =~= Seq::<BlockModel>::empty());
    assert(one.drop_last() =~= none);
    assert(blocks_among(one) =~= seq![block]);
    assert(seq![other].drop_last() =~= none);
    assert(blocks_among(seq![other]) =~= Seq::<BlockModel>::empty());
    assert(blocks_among(a) + Seq::<BlockModel>::empty() + blocks_among(b) =~= blocks_among(a)
        + blocks_among(b));
    assert((before + a).take(before.len() as int) =~= before);
    assert((before + a).skip(before.len() as int) =~= a);
}

/// Only a block that says nothing of itself but what is in it is inline: no heading, no
/// item, no code, no quote, and no field of its style.
pub proof fn inline_blocks_are_bare(block: BlockModel)
    ensures
        inline_only(block) <==> {
            &&& block.heading_level is None
            &&& block.list_style is None
            &&& !block.is_code_block
            &&& block.blockquote_depth == 0
            &&& block.line_height is None
            &&& block.non_breakable_lines is None
            &&& block.page_break_before is None
            &&& block.direction is None
            &&& block.background_color is None
            &&& block.alignment is None
            &&& block.top_margin is None
            &&& block.text_indent is None
        },
{
}

} // verus!
