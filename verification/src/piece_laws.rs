//! What the weave of [`crate::inline_pieces`] promises of its stream.
use vstd::prelude::*;
use vstd::utf8::{
    decode_utf8, decode_utf8_split, encode_utf8, encode_utf8_decode_utf8, encode_utf8_valid_utf8,
    is_char_boundary, is_char_boundary_iff_not_is_continuation_byte,
    is_char_boundary_start_end_of_seq, is_continuation_byte, length_of_first_scalar,
    pop_first_scalar, valid_utf8_split,
};

use crate::format_runs::{in_order, FormatModel, RunModel};
use crate::inline_pieces::{
    addressed, by_offset, deleted_images, inserted_images, pieces_chars, place_anchor,
    sentinel_bytes, sliceable, split_images, split_notes, weave_anchor, weave_anchors, weave_runs,
    weave_text, woven, AnchorModel, ContentModel, ImageModel, NoteModel, PieceModel, Weave,
};
use crate::run_laws::{format_at, format_at_covers, format_at_index};
use crate::text::{byte_len, byte_slice, cut_in_range, is_cut};

verus! {

/// Whether anchors stand in byte order.
pub open spec fn sorted(anchors: Seq<AnchorModel>) -> bool {
    forall|i: int, j: int|
        0 <= i < j < anchors.len() ==> (#[trigger] anchors[i]).offset() <= (
        #[trigger] anchors[j]).offset()
}

proof fn place_anchor_keeps(anchors: Seq<AnchorModel>, anchor: AnchorModel)
    requires
        sorted(anchors),
    ensures
        sorted(place_anchor(anchors, anchor)),
        place_anchor(anchors, anchor).len() == anchors.len() + 1,
        place_anchor(anchors, anchor).to_multiset() == anchors.to_multiset().insert(anchor),
        forall|i: int|
            0 <= i < place_anchor(anchors, anchor).len() ==> {
                ||| (#[trigger] place_anchor(anchors, anchor)[i]).offset() <= anchor.offset()
                ||| anchors.len() > 0 && place_anchor(anchors, anchor)[i].offset()
                    <= anchors.last().offset()
            },
    decreases anchors.len(),
{
    broadcast use vstd::seq_lib::group_to_multiset_ensures;

    if anchors.len() == 0 || anchors.last().offset() <= anchor.offset() {
        let new = anchors.push(anchor);
        assert forall|i: int, j: int| 0 <= i < j < new.len() implies (#[trigger] new[i]).offset()
            <= (#[trigger] new[j]).offset() by {
            if j == anchors.len() && i < j - 1 {
                assert(anchors[i].offset() <= anchors[j - 1].offset());
            }
        }
    } else {
        let rest = anchors.drop_last();
        assert(sorted(rest)) by {
            assert forall|i: int, j: int| 0 <= i < j < rest.len() implies (
            #[trigger] rest[i]).offset() <= (#[trigger] rest[j]).offset() by {
                assert(anchors[i].offset() <= anchors[j].offset());
            }
        }
        place_anchor_keeps(rest, anchor);
        let kept = place_anchor(rest, anchor);
        let new = kept.push(anchors.last());
        if rest.len() > 0 {
            assert(anchors[rest.len() - 1].offset() <= anchors[anchors.len() - 1].offset());
        }
        assert forall|i: int, j: int| 0 <= i < j < new.len() implies (#[trigger] new[i]).offset()
            <= (#[trigger] new[j]).offset() by {
            if j < kept.len() {
                assert(kept[i].offset() <= kept[j].offset());
            } else {
                assert(new[i] == kept[i]);
            }
        }
        assert(anchors =~= rest.push(anchors.last()));
        assert(new.to_multiset() =~= anchors.to_multiset().insert(anchor));
    }
}

/// The anchors of a block come out in byte order, each exactly once.
pub proof fn anchors_are_sorted_and_complete(anchors: Seq<AnchorModel>)
    ensures
        sorted(by_offset(anchors)),
        by_offset(anchors).to_multiset() == anchors.to_multiset(),
        by_offset(anchors).len() == anchors.len(),
    decreases anchors.len(),
{
    broadcast use vstd::seq_lib::group_to_multiset_ensures;

    if anchors.len() > 0 {
        anchors_are_sorted_and_complete(anchors.drop_last());
        place_anchor_keeps(by_offset(anchors.drop_last()), anchors.last());
        assert(anchors =~= anchors.drop_last().push(anchors.last()));
    }
}

/// The anchors at one offset, in the order in which they stand.
pub open spec fn at_offset(anchors: Seq<AnchorModel>, offset: int) -> Seq<AnchorModel>
    decreases anchors.len(),
{
    if anchors.len() == 0 {
        anchors
    } else if anchors.last().offset() == offset {
        at_offset(anchors.drop_last(), offset).push(anchors.last())
    } else {
        at_offset(anchors.drop_last(), offset)
    }
}

proof fn place_anchor_is_stable(anchors: Seq<AnchorModel>, anchor: AnchorModel, offset: int)
    ensures
        at_offset(place_anchor(anchors, anchor), offset) == at_offset(anchors.push(anchor), offset),
    decreases anchors.len(),
{
    assert(anchors.push(anchor).drop_last() =~= anchors);
    if !(anchors.len() == 0 || anchors.last().offset() <= anchor.offset()) {
        let rest = anchors.drop_last();
        place_anchor_is_stable(rest, anchor, offset);
        assert(rest.push(anchor).drop_last() =~= rest);
        let kept = place_anchor(rest, anchor);
        assert(kept.push(anchors.last()).drop_last() =~= kept);
        reveal_with_fuel(at_offset, 3);
    }
}

/// Anchors at the same offset keep their order: images come before footnote
/// references, and each kind in the order it is stored.
pub proof fn anchor_order_is_stable(anchors: Seq<AnchorModel>, offset: int)
    ensures
        at_offset(by_offset(anchors), offset) == at_offset(anchors, offset),
    decreases anchors.len(),
{
    if anchors.len() > 0 {
        let rest = anchors.drop_last();
        anchor_order_is_stable(rest, offset);
        place_anchor_is_stable(by_offset(rest), anchors.last(), offset);
        let kept = by_offset(rest);
        assert(kept.push(anchors.last()).drop_last() =~= kept);
    }
}

/// The anchors among the pieces of a stream.
pub open spec fn objects(pieces: Seq<PieceModel>) -> Seq<AnchorModel>
    decreases pieces.len(),
{
    if pieces.len() == 0 {
        Seq::empty()
    } else {
        let rest = objects(pieces.drop_last());
        match pieces.last() {
            PieceModel::Text { .. } => rest,
            PieceModel::Image(image) => rest.push(AnchorModel::Image(image)),
            PieceModel::FootnoteRef(note) => rest.push(AnchorModel::FootnoteRef(note)),
        }
    }
}

/// How far a stream has read its text: the next byte, and the end of the last
/// sentinel that was stepped over.
pub struct Reach {
    pub byte: int,
    pub sentinel: int,
}

/// Reads a stream: each text piece must begin where the last one, or the last
/// sentinel, ended; each anchor must stand at its own offset, unless that lies
/// within the sentinel just stepped over. `None` where the stream breaks this.
pub open spec fn reach(text: Seq<char>, pieces: Seq<PieceModel>) -> Option<Reach>
    decreases pieces.len(),
{
    if pieces.len() == 0 {
        Some(Reach { byte: 0, sentinel: 0 })
    } else {
        match reach(text, pieces.drop_last()) {
            None => None,
            Some(r) => match pieces.last() {
                PieceModel::Text { start, end, .. } => if start == r.byte && start < end {
                    Some(Reach { byte: end, sentinel: r.sentinel })
                } else {
                    None
                },
                PieceModel::Image(image) => step_over(text, r, image.offset),
                PieceModel::FootnoteRef(note) => step_over(text, r, note.offset),
            },
        }
    }
}

/// Reads an anchor, and its sentinel where the text holds one.
pub open spec fn step_over(text: Seq<char>, r: Reach, at: int) -> Option<Reach> {
    let past = at + sentinel_bytes(text, at);
    if r.byte == at || at < r.byte == r.sentinel {
        if past > r.byte {
            Some(Reach { byte: past, sentinel: past })
        } else {
            Some(r)
        }
    } else {
        None
    }
}

/// Whether every byte of every text piece wears the piece's format.
pub open spec fn dressed(runs: Seq<RunModel>, pieces: Seq<PieceModel>) -> bool {
    forall|i: int, byte: int|
        0 <= i < pieces.len() && in_piece(#[trigger] pieces[i], byte) ==> #[trigger] format_at(
            runs,
            byte,
        ) == piece_format(pieces[i])
}

/// Whether a byte lies in a text piece.
pub open spec fn in_piece(piece: PieceModel, byte: int) -> bool {
    match piece {
        PieceModel::Text { start, end, .. } => start <= byte < end,
        _ => false,
    }
}

/// The format of a text piece.
pub open spec fn piece_format(piece: PieceModel) -> Option<FormatModel> {
    match piece {
        PieceModel::Text { format, .. } => format,
        _ => None,
    }
}

spec fn weave_ok(
    text: Seq<char>,
    runs: Seq<RunModel>,
    anchors: Seq<AnchorModel>,
    w: Weave,
) -> bool {
    &&& 0 <= w.next <= anchors.len()
    &&& objects(w.pieces) == anchors.take(w.next)
    &&& reach(text, w.pieces) is Some
    &&& reach(text, w.pieces)->0.byte == w.cursor
    &&& 0 <= w.cursor <= byte_len(text)
    &&& w.next < anchors.len() ==> w.cursor <= anchors[w.next].offset() || w.cursor == reach(
        text,
        w.pieces,
    )->0.sentinel
    &&& dressed(runs, w.pieces)
}

/// What a block's runs and anchors must be for the weave to keep its promises:
/// the runs in order, the anchors sorted, and all of them within the text.
pub open spec fn weavable(
    text: Seq<char>,
    runs: Seq<RunModel>,
    anchors: Seq<AnchorModel>,
) -> bool {
    &&& byte_len(text) <= u32::MAX
    &&& in_order(runs)
    &&& sorted(anchors)
    &&& forall|i: int|
        0 <= i < runs.len() ==> 0 <= (#[trigger] runs[i]).start && runs[i].end <= byte_len(text)
    &&& forall|i: int|
        0 <= i < anchors.len() ==> 0 <= (#[trigger] anchors[i]).offset() <= byte_len(text)
}

proof fn text_step(
    text: Seq<char>,
    runs: Seq<RunModel>,
    anchors: Seq<AnchorModel>,
    w: Weave,
    end: int,
    format: Option<FormatModel>,
)
    requires
        weavable(text, runs, anchors),
        weave_ok(text, runs, anchors, w),
        end <= byte_len(text),
        w.next < anchors.len() ==> end <= anchors[w.next].offset(),
        forall|byte: int| w.cursor <= byte < end ==> #[trigger] format_at(runs, byte) == format,
    ensures
        weave_ok(text, runs, anchors, weave_text(w, end, format)),
{
    if w.cursor < end {
        let new = weave_text(w, end, format);
        assert(new.pieces.drop_last() =~= w.pieces);
        assert forall|i: int, byte: int|
            0 <= i < new.pieces.len() && in_piece(
                #[trigger] new.pieces[i],
                byte,
            ) implies #[trigger] format_at(runs, byte) == piece_format(new.pieces[i]) by {
            if i < w.pieces.len() {
                assert(new.pieces[i] == w.pieces[i]);
            }
        }
    }
}

proof fn anchor_step(
    text: Seq<char>,
    runs: Seq<RunModel>,
    anchors: Seq<AnchorModel>,
    w: Weave,
    format: Option<FormatModel>,
)
    requires
        weavable(text, runs, anchors),
        weave_ok(text, runs, anchors, w),
        w.next < anchors.len(),
        forall|byte: int|
            w.cursor <= byte < anchors[w.next].offset() ==> #[trigger] format_at(runs, byte)
                == format,
    ensures
        weave_ok(text, runs, anchors, weave_anchor(text, w, anchors[w.next], format)),
        weave_anchor(text, w, anchors[w.next], format).cursor >= w.cursor,
{
    let anchor = anchors[w.next];
    let at = anchor.offset();
    let up = weave_text(w, at, format);
    text_step(text, runs, anchors, w, at, format);
    let new = weave_anchor(text, w, anchor, format);
    assert(new.pieces.drop_last() =~= up.pieces);
    assert(new.pieces.last() == anchor.piece());
    assert(anchors.take(w.next + 1) =~= anchors.take(w.next).push(anchor));
    assert forall|i: int, byte: int|
        0 <= i < new.pieces.len() && in_piece(
            #[trigger] new.pieces[i],
            byte,
        ) implies #[trigger] format_at(runs, byte) == piece_format(new.pieces[i]) by {
        if i < up.pieces.len() {
            assert(new.pieces[i] == up.pieces[i]);
        }
    }
    if new.next < anchors.len() {
        assert(at <= anchors[new.next].offset());
    }
}

proof fn anchors_step(
    text: Seq<char>,
    runs: Seq<RunModel>,
    anchors: Seq<AnchorModel>,
    w: Weave,
    limit: int,
    format: Option<FormatModel>,
)
    requires
        weavable(text, runs, anchors),
        weave_ok(text, runs, anchors, w),
        forall|byte: int|
            w.cursor <= byte < limit - 1 ==> #[trigger] format_at(runs, byte) == format,
    ensures
        weave_ok(text, runs, anchors, weave_anchors(text, anchors, w, limit, format)),
        weave_anchors(text, anchors, w, limit, format).cursor >= w.cursor,
        weave_anchors(text, anchors, w, limit, format).next < anchors.len() ==> anchors[weave_anchors(
            text,
            anchors,
            w,
            limit,
            format,
        ).next].offset() >= limit,
    decreases anchors.len() - w.next,
{
    if w.next < anchors.len() && anchors[w.next].offset() < limit {
        anchor_step(text, runs, anchors, w, format);
        anchors_step(
            text,
            runs,
            anchors,
            weave_anchor(text, w, anchors[w.next], format),
            limit,
            format,
        );
    }
}

proof fn runs_step(text: Seq<char>, runs: Seq<RunModel>, anchors: Seq<AnchorModel>, k: int)
    requires
        weavable(text, runs, anchors),
        0 <= k <= runs.len(),
    ensures
        weave_ok(text, runs, anchors, weave_runs(text, anchors, runs.take(k))),
        k > 0 ==> weave_runs(text, anchors, runs.take(k)).cursor >= runs[k - 1].end,
    decreases k,
{
    if k == 0 {
        assert(runs.take(0) =~= Seq::<RunModel>::empty());
        assert(anchors.take(0) =~= Seq::<AnchorModel>::empty());
        assert(weave_runs(text, anchors, runs.take(0)).pieces =~= Seq::<PieceModel>::empty());
    } else {
        runs_step(text, runs, anchors, k - 1);
        assert(runs.take(k).drop_last() =~= runs.take(k - 1));
        let w = weave_runs(text, anchors, runs.take(k - 1));
        let run = runs[k - 1];
        assert(run.start < run.end);
        assert forall|byte: int| w.cursor <= byte < run.start implies #[trigger] format_at(
            runs,
            byte,
        ) is None by {
            gap_is_plain(runs, k - 1, byte);
        }
        let a = weave_anchors(text, anchors, w, run.start, None);
        anchors_step(text, runs, anchors, w, run.start, None);
        let b = weave_text(a, run.start, None);
        text_step(text, runs, anchors, a, run.start, None);
        assert forall|byte: int| run.start <= byte < run.end implies #[trigger] format_at(
            runs,
            byte,
        ) == Some(run.format) by {
            format_at_covers(runs, byte, k - 1);
        }
        let c = weave_anchors(text, anchors, b, run.end + 1, Some(run.format));
        anchors_step(text, runs, anchors, b, run.end + 1, Some(run.format));
        text_step(text, runs, anchors, c, run.end, Some(run.format));
    }
}

proof fn gap_is_plain(runs: Seq<RunModel>, k: int, byte: int)
    requires
        in_order(runs),
        0 <= k <= runs.len(),
        k > 0 ==> runs[k - 1].end <= byte,
        k < runs.len() ==> byte < runs[k].start,
    ensures
        format_at(runs, byte) is None,
{
    if format_at(runs, byte) is Some {
        let i = format_at_index(runs, byte);
        if i < k - 1 {
            assert(runs[i].end <= runs[k - 1].start);
            assert(runs[k - 1].start < runs[k - 1].end);
        }
        if i > k {
            assert(runs[k].end <= runs[i].start);
            assert(runs[k].start < runs[k].end);
        }
    }
}

/// The weave reads its block exactly once: the text pieces and the sentinels
/// stepped over make up the whole text in order, each byte in the format its
/// run gives it, and every anchor stands at its own offset, in order, exactly
/// once, also where it splits a run.
pub proof fn weave_reads_the_block_once(
    text: Seq<char>,
    runs: Seq<RunModel>,
    anchors: Seq<AnchorModel>,
)
    requires
        weavable(text, runs, anchors),
    ensures
        objects(woven(text, runs, anchors)) == anchors,
        reach(text, woven(text, runs, anchors)) is Some,
        reach(text, woven(text, runs, anchors))->0.byte == byte_len(text),
        dressed(runs, woven(text, runs, anchors)),
{
    runs_step(text, runs, anchors, runs.len() as int);
    assert(runs.take(runs.len() as int) =~= runs);
    let w = weave_runs(text, anchors, runs);
    assert forall|byte: int| w.cursor <= byte implies #[trigger] format_at(runs, byte) is None by {
        gap_is_plain(runs, runs.len() as int, byte);
    }
    anchors_step(text, runs, anchors, w, 0x1_0000_0000, None);
    let tail = weave_anchors(text, anchors, w, 0x1_0000_0000, None);
    assert(tail.next == anchors.len());
    text_step(text, runs, anchors, tail, byte_len(text) as int, None);
    assert(anchors.take(anchors.len() as int) =~= anchors);
}

/// Whether every run and every anchor of a block lies between characters.
pub open spec fn cuts_between_characters(
    text: Seq<char>,
    runs: Seq<RunModel>,
    anchors: Seq<AnchorModel>,
) -> bool {
    &&& forall|i: int|
        0 <= i < runs.len() ==> is_cut(text, (#[trigger] runs[i]).start) && is_cut(
            text,
            runs[i].end,
        )
    &&& forall|i: int|
        0 <= i < anchors.len() ==> is_cut(text, (#[trigger] anchors[i]).offset())
}

/// A sentinel that begins between two characters also ends between two.
pub proof fn sentinel_ends_at_a_cut(text: Seq<char>, at: int)
    requires
        is_cut(text, at),
    ensures
        is_cut(text, at + sentinel_bytes(text, at)),
        sentinel_bytes(text, at) == 3 ==> byte_slice(text, at, at + 3).len() == 1,
{
    if sentinel_bytes(text, at) == 3 {
        let bytes = encode_utf8(text);
        encode_utf8_valid_utf8(text);
        valid_utf8_split(bytes, at);
        let rest = bytes.subrange(at, bytes.len() as int);
        let mark = seq![0xEFu8, 0xBFu8, 0xBCu8];
        let part = bytes.subrange(at, at + 3);
        assert(part == mark);
        assert(part[0] == 0xEF && part[1] == 0xBF && part[2] == 0xBC);
        assert(rest[0] == bytes[at]);
        assert(part[0] == bytes[at]);
        assert(rest[0] == 0xEF);
        assert(length_of_first_scalar(rest) == 3);
        reveal_with_fuel(is_char_boundary, 2);
        assert(is_char_boundary(rest, 3));
        valid_utf8_split(rest, 3);
        assert(rest.subrange(0, 3) =~= part);
        reveal_with_fuel(decode_utf8, 2);
        assert(pop_first_scalar(part) =~= Seq::<u8>::empty());
        assert(decode_utf8(part).len() == 1);
        if at + 3 == bytes.len() {
            is_char_boundary_start_end_of_seq(bytes);
        } else {
            is_char_boundary_iff_not_is_continuation_byte(rest, 3);
            assert(rest[3] == bytes[at + 3]);
            is_char_boundary_iff_not_is_continuation_byte(bytes, at + 3);
        }
    }
}

spec fn cut_ok(text: Seq<char>, w: Weave) -> bool {
    is_cut(text, w.cursor) && sliceable(text, w.pieces)
}

proof fn cut_text_step(text: Seq<char>, w: Weave, end: int, format: Option<FormatModel>)
    requires
        cut_ok(text, w),
        is_cut(text, end),
    ensures
        cut_ok(text, weave_text(w, end, format)),
{
    let new = weave_text(w, end, format);
    assert forall|i: int| 0 <= i < new.pieces.len() implies match #[trigger] new.pieces[i] {
        PieceModel::Text { start, end, .. } => start <= end && is_cut(text, start) && is_cut(
            text,
            end,
        ),
        _ => true,
    } by {
        if i < w.pieces.len() {
            assert(new.pieces[i] == w.pieces[i]);
        }
    }
}

proof fn cut_anchors_step(
    text: Seq<char>,
    anchors: Seq<AnchorModel>,
    w: Weave,
    limit: int,
    format: Option<FormatModel>,
)
    requires
        cut_ok(text, w),
        forall|i: int| 0 <= i < anchors.len() ==> is_cut(text, (#[trigger] anchors[i]).offset()),
    ensures
        cut_ok(text, weave_anchors(text, anchors, w, limit, format)),
    decreases anchors.len() - w.next,
{
    if 0 <= w.next < anchors.len() && anchors[w.next].offset() < limit {
        let anchor = anchors[w.next];
        cut_text_step(text, w, anchor.offset(), format);
        let up = weave_text(w, anchor.offset(), format);
        let new = weave_anchor(text, w, anchor, format);
        sentinel_ends_at_a_cut(text, anchor.offset());
        assert forall|i: int| 0 <= i < new.pieces.len() implies match #[trigger] new.pieces[i] {
            PieceModel::Text { start, end, .. } => start <= end && is_cut(text, start) && is_cut(
                text,
                end,
            ),
            _ => true,
        } by {
            if i < up.pieces.len() {
                assert(new.pieces[i] == up.pieces[i]);
            }
        }
        cut_anchors_step(text, anchors, new, limit, format);
    }
}

proof fn cut_runs_step(text: Seq<char>, runs: Seq<RunModel>, anchors: Seq<AnchorModel>)
    requires
        cuts_between_characters(text, runs, anchors),
    ensures
        cut_ok(text, weave_runs(text, anchors, runs)),
    decreases runs.len(),
{
    if runs.len() == 0 {
        encode_utf8_valid_utf8(text);
        is_char_boundary_start_end_of_seq(encode_utf8(text));
    } else {
        let rest = runs.drop_last();
        assert forall|i: int| 0 <= i < rest.len() implies is_cut(text, (#[trigger] rest[i]).start)
            && is_cut(text, rest[i].end) by {
            assert(rest[i] == runs[i]);
        }
        cut_runs_step(text, rest, anchors);
        let run = runs.last();
        assert(run == runs[runs.len() - 1]);
        let w = weave_runs(text, anchors, rest);
        cut_anchors_step(text, anchors, w, run.start, None);
        let a = weave_anchors(text, anchors, w, run.start, None);
        cut_text_step(text, a, run.start, None);
        let b = weave_text(a, run.start, None);
        cut_anchors_step(text, anchors, b, run.end + 1, Some(run.format));
        let c = weave_anchors(text, anchors, b, run.end + 1, Some(run.format));
        cut_text_step(text, c, run.end, Some(run.format));
    }
}

/// Where the runs and anchors of a block lie between characters, so do the
/// pieces of its weave.
pub proof fn weave_cuts_between_characters(
    text: Seq<char>,
    runs: Seq<RunModel>,
    anchors: Seq<AnchorModel>,
)
    requires
        cuts_between_characters(text, runs, anchors),
    ensures
        sliceable(text, woven(text, runs, anchors)),
{
    cut_runs_step(text, runs, anchors);
    let w = weave_runs(text, anchors, runs);
    cut_anchors_step(text, anchors, w, 0x1_0000_0000, None);
    encode_utf8_valid_utf8(text);
    is_char_boundary_start_end_of_seq(encode_utf8(text));
    cut_text_step(
        text,
        weave_anchors(text, anchors, w, 0x1_0000_0000, None),
        byte_len(text) as int,
        None,
    );
}

/// Whether every anchor has a sentinel of its own in the text.
pub open spec fn anchored(text: Seq<char>, anchors: Seq<AnchorModel>) -> bool {
    &&& forall|i: int|
        0 <= i < anchors.len() ==> sentinel_bytes(text, (#[trigger] anchors[i]).offset()) == 3
    &&& forall|i: int|
        0 < i < anchors.len() ==> anchors[i - 1].offset() + 3 <= (#[trigger] anchors[i]).offset()
}

/// No text can be cut within a sentinel.
pub(crate) proof fn sentinels_are_whole(text: Seq<char>, at: int, cut: int)
    requires
        sentinel_bytes(text, at) == 3,
        is_cut(text, cut),
    ensures
        cut <= at || at + 3 <= cut,
{
    if at < cut < at + 3 {
        let bytes = encode_utf8(text);
        encode_utf8_valid_utf8(text);
        is_char_boundary_iff_not_is_continuation_byte(bytes, cut);
        let mark = bytes.subrange(at, at + 3);
        assert(mark[cut - at] == bytes[cut]);
        assert(mark[1] == 0xBFu8 && mark[2] == 0xBCu8);
        assert(is_continuation_byte(0xBFu8));
        assert(is_continuation_byte(0xBCu8));
    }
}

/// How many anchors, of those in byte order, have no sentinel of their own: the text
/// holds none at their offset, or it is that of an anchor before them.
pub open spec fn without_sentinel(text: Seq<char>, anchors: Seq<AnchorModel>) -> int
    decreases anchors.len(),
{
    if anchors.len() == 0 {
        0
    } else {
        let at = anchors.last().offset();
        let own = sentinel_bytes(text, at) == 3 && (anchors.len() == 1
            || anchors[anchors.len() - 2].offset() != at);
        without_sentinel(text, anchors.drop_last()) + if own {
            0int
        } else {
            1int
        }
    }
}

/// Whether a position is where a sentinel of one of some anchors ends.
spec fn ends_sentinel(text: Seq<char>, anchors: Seq<AnchorModel>, byte: int) -> bool {
    exists|i: int|
        0 <= i < anchors.len() && (#[trigger] anchors[i]).offset() + 3 == byte && sentinel_bytes(
            text,
            anchors[i].offset(),
        ) == 3
}

proof fn reach_counts_all_characters(text: Seq<char>, pieces: Seq<PieceModel>)
    requires
        sliceable(text, pieces),
        reach(text, pieces) is Some,
        sorted(objects(pieces)),
        forall|i: int|
            0 <= i < objects(pieces).len() ==> is_cut(text, (#[trigger] objects(pieces)[i]).offset()),
    ensures
        is_cut(text, reach(text, pieces)->0.byte),
        pieces_chars(text, pieces) == byte_slice(text, 0, reach(text, pieces)->0.byte).len()
            + without_sentinel(text, objects(pieces)),
        reach(text, pieces)->0.sentinel == 0 || ends_sentinel(
            text,
            objects(pieces),
            reach(text, pieces)->0.sentinel,
        ),
        forall|i: int|
            0 <= i < objects(pieces).len() && sentinel_bytes(
                text,
                (#[trigger] objects(pieces)[i]).offset(),
            ) == 3 ==> objects(pieces)[i].offset() + 3 <= reach(text, pieces)->0.byte,
    decreases pieces.len(),
{
    let bytes = encode_utf8(text);
    encode_utf8_valid_utf8(text);
    if pieces.len() == 0 {
        is_char_boundary_start_end_of_seq(bytes);
        assert(bytes.subrange(0, 0) =~= Seq::<u8>::empty());
    } else {
        let rest = pieces.drop_last();
        let now = objects(pieces);
        let was = objects(rest);
        assert forall|i: int| 0 <= i < rest.len() implies match #[trigger] rest[i] {
            PieceModel::Text { start, end, .. } => start <= end && is_cut(text, start) && is_cut(
                text,
                end,
            ),
            _ => true,
        } by {
            assert(rest[i] == pieces[i]);
        }
        assert(was =~= now.take(was.len() as int));
        assert forall|i: int| 0 <= i < was.len() implies is_cut(
            text,
            (#[trigger] was[i]).offset(),
        ) by {
            assert(was[i] == now[i]);
        }
        assert(sorted(was)) by {
            assert forall|i: int, j: int| 0 <= i < j < was.len() implies (
            #[trigger] was[i]).offset() <= (#[trigger] was[j]).offset() by {
                assert(now[i].offset() <= now[j].offset());
            }
        }
        reach_counts_all_characters(text, rest);
        let before = reach(text, rest)->0;
        let after = reach(text, pieces)->0;
        let last = pieces.last();
        assert(last == pieces[pieces.len() - 1]);
        assert(ends_sentinel(text, was, before.sentinel) ==> ends_sentinel(
            text,
            now,
            before.sentinel,
        )) by {
            if ends_sentinel(text, was, before.sentinel) {
                let i = choose|i: int|
                    0 <= i < was.len() && (#[trigger] was[i]).offset() + 3 == before.sentinel
                        && sentinel_bytes(text, was[i].offset()) == 3;
                assert(now[i] == was[i]);
            }
        }
        match last {
            PieceModel::Text { start, end, .. } => {},
            _ => {
                let at = now.last().offset();
                let n = was.len() as int;
                assert(now[n] == now.last());
                assert(now.drop_last() =~= was);
                sentinel_ends_at_a_cut(text, at);
                if sentinel_bytes(text, at) == 3 {
                    if n > 0 && was.last().offset() == at {
                        assert(was[n - 1].offset() + 3 <= before.byte);
                        assert(now[n - 1] == was[n - 1]);
                    } else {
                        if at < before.byte && before.byte == before.sentinel {
                            cut_in_range(text, at);
                            let i = choose|i: int|
                                0 <= i < was.len() && (#[trigger] was[i]).offset() + 3
                                    == before.sentinel && sentinel_bytes(text, was[i].offset())
                                    == 3;
                            if i < n - 1 {
                                assert(was[i].offset() <= was[n - 1].offset());
                            }
                            assert(now[n - 1].offset() <= now[n].offset());
                            assert(now[n - 1] == was[n - 1]);
                            sentinels_are_whole(text, was[i].offset(), at);
                        }
                        if n > 0 {
                            assert(now[n - 1] == was[n - 1]);
                        }
                        assert(before.byte == at);
                        assert(now[n].offset() + 3 == after.sentinel);
                    }
                }
            },
        }
        slices_join(text, before.byte, after.byte);
        assert forall|i: int|
            0 <= i < now.len() && sentinel_bytes(text, (#[trigger] now[i]).offset())
                == 3 implies now[i].offset() + 3 <= after.byte by {
            if i < was.len() {
                assert(was[i] == now[i]);
            }
        }
    }
}

/// The addressable pieces of a block take as many characters as its text has, and one
/// more for each anchor without a sentinel of its own.
pub proof fn addressable_length_in_general(
    text: Seq<char>,
    runs: Seq<RunModel>,
    anchors: Seq<AnchorModel>,
)
    requires
        weavable(text, runs, anchors),
        cuts_between_characters(text, runs, anchors),
    ensures
        pieces_chars(text, woven(text, runs, anchors)) == text.len() + without_sentinel(
            text,
            anchors,
        ),
{
    weave_reads_the_block_once(text, runs, anchors);
    weave_cuts_between_characters(text, runs, anchors);
    reach_counts_all_characters(text, woven(text, runs, anchors));
    let bytes = encode_utf8(text);
    assert(bytes.subrange(0, bytes.len() as int) =~= bytes);
    encode_utf8_decode_utf8(text);
}

/// The last addressable piece ends where all of them together do.
pub proof fn addressable_pieces_end_together(
    text: Seq<char>,
    pieces: Seq<PieceModel>,
    base: int,
)
    requires
        pieces.len() > 0,
    ensures
        addressed(text, pieces, base).len() == pieces.len(),
        addressed(text, pieces, base).last().end == base + pieces_chars(text, pieces),
{
    assert(pieces.take(pieces.len() - 1) =~= pieces.drop_last());
    assert(pieces.take(pieces.len() as int) =~= pieces);
}

proof fn slices_join(text: Seq<char>, from: int, to: int)
    requires
        is_cut(text, from),
        is_cut(text, to),
        from <= to,
    ensures
        byte_slice(text, 0, to) == byte_slice(text, 0, from) + byte_slice(text, from, to),
{
    let bytes = encode_utf8(text);
    encode_utf8_valid_utf8(text);
    cut_in_range(text, from);
    cut_in_range(text, to);
    let head = bytes.subrange(0, to);
    valid_utf8_split(bytes, to);
    if from == to {
        is_char_boundary_start_end_of_seq(head);
    } else {
        is_char_boundary_iff_not_is_continuation_byte(bytes, from);
        is_char_boundary_iff_not_is_continuation_byte(head, from);
    }
    decode_utf8_split(head, from);
    assert(head.subrange(0, from) =~= bytes.subrange(0, from));
    assert(head.subrange(from, head.len() as int) =~= bytes.subrange(from, to));
}

/// A block whose anchors all have sentinels takes as many addressable
/// characters as its text has characters: an anchor counts one, as its
/// sentinel does.
pub proof fn addressable_length_is_the_text_length(
    text: Seq<char>,
    runs: Seq<RunModel>,
    anchors: Seq<AnchorModel>,
)
    requires
        weavable(text, runs, anchors),
        cuts_between_characters(text, runs, anchors),
        anchored(text, anchors),
    ensures
        pieces_chars(text, woven(text, runs, anchors)) == text.len(),
{
    addressable_length_in_general(text, runs, anchors);
    every_anchor_has_one(text, anchors);
}

proof fn every_anchor_has_one(text: Seq<char>, anchors: Seq<AnchorModel>)
    requires
        anchored(text, anchors),
    ensures
        without_sentinel(text, anchors) == 0,
    decreases anchors.len(),
{
    if anchors.len() > 0 {
        let rest = anchors.drop_last();
        assert(anchored(text, rest)) by {
            assert forall|i: int| 0 <= i < rest.len() implies sentinel_bytes(
                text,
                (#[trigger] rest[i]).offset(),
            ) == 3 by {
                assert(rest[i] == anchors[i]);
            }
            assert forall|i: int| 0 < i < rest.len() implies rest[i - 1].offset() + 3 <= (
            #[trigger] rest[i]).offset() by {
                assert(rest[i] == anchors[i]);
            }
        }
        every_anchor_has_one(text, rest);
        assert(anchors.last() == anchors[anchors.len() - 1]);
    }
}

/// Addressable pieces follow one another without gap or overlap, from the base
/// on, each as long as its text, and one character long for an object.
pub proof fn addressable_pieces_are_contiguous(
    text: Seq<char>,
    pieces: Seq<PieceModel>,
    base: int,
    i: int,
)
    requires
        0 <= i < pieces.len(),
    ensures
        addressed(text, pieces, base)[i].start == if i == 0 {
            base
        } else {
            addressed(text, pieces, base)[i - 1].end
        },
        addressed(text, pieces, base)[i].end - addressed(text, pieces, base)[i].start
            == match addressed(text, pieces, base)[i].content {
            ContentModel::Text(part) => part.len() as int,
            _ => 1,
        },
{
    assert(pieces.take(0) =~= Seq::<PieceModel>::empty());
    assert(pieces.take(i + 1).drop_last() =~= pieces.take(i));
    assert(pieces.take(i + 1).last() == pieces[i]);
}

/// Deleting the bytes that were just inserted puts every image back.
pub proof fn delete_puts_images_back(images: Seq<ImageModel>, at: int, n: int)
    requires
        0 <= n,
    ensures
        deleted_images(inserted_images(images, at, n), at, at + n) == images,
    decreases images.len(),
{
    let moved = inserted_images(images, at, n);
    if n == 0 {
        assert(moved =~= images);
    } else if images.len() > 0 {
        delete_puts_images_back(images.drop_last(), at, n);
        assert(moved.drop_last() =~= inserted_images(images.drop_last(), at, n));
        assert(images.drop_last().push(images.last()) =~= images);
    } else {
        assert(moved =~= images);
    }
}

/// Images counted from a byte, counted from the start of the block again.
pub open spec fn images_from(images: Seq<ImageModel>, at: int) -> Seq<ImageModel> {
    images.map_values(|image: ImageModel| ImageModel { offset: image.offset + at, ..image })
}

/// Footnote references counted from a byte, counted from the start of the block
/// again.
pub open spec fn notes_from(notes: Seq<NoteModel>, at: int) -> Seq<NoteModel> {
    notes.map_values(|note: NoteModel| NoteModel { offset: note.offset + at, ..note })
}

/// Splitting the images of a block and putting the right half behind the left one
/// again gives the images back.
pub proof fn split_images_rejoin(images: Seq<ImageModel>, at: int)
    requires
        forall|i: int, j: int|
            0 <= i < j < images.len() ==> (#[trigger] images[i]).offset <= (
            #[trigger] images[j]).offset,
    ensures
        split_images(images, at).0 + images_from(
            split_images(images, at).1,
            at,
        ) == images,
    decreases images.len(),
{
    let (left, right) = split_images(images, at);
    if images.len() > 0 {
        let rest = images.drop_last();
        let last = images.last();
        assert forall|i: int, j: int| 0 <= i < j < rest.len() implies (#[trigger] rest[i]).offset
            <= (#[trigger] rest[j]).offset by {
            assert(images[i].offset <= images[j].offset);
        }
        split_images_rejoin(rest, at);
        let (l, r) = split_images(rest, at);
        if last.offset < at {
            assert forall|i: int| 0 <= i < rest.len() implies (#[trigger] rest[i]).offset < at by {
                assert(images[i].offset <= images[images.len() - 1].offset);
            }
            images_before_stay_left(rest, at);
            assert(l + images_from(r, at) =~= l);
            assert(images_from(right, at) =~= Seq::empty());
            assert(rest.push(last) =~= images);
            assert(left + images_from(right, at) =~= images);
        } else {
            assert(images_from(right, at) =~= images_from(r, at).push(last));
            assert(l + images_from(r, at).push(last) =~= (l + images_from(r, at)).push(last));
            assert(rest.push(last) =~= images);
            assert(left + images_from(right, at) =~= images);
        }
    } else {
        assert(left + images_from(right, at) =~= images);
    }
}

proof fn images_before_stay_left(images: Seq<ImageModel>, at: int)
    requires
        forall|i: int| 0 <= i < images.len() ==> (#[trigger] images[i]).offset < at,
    ensures
        split_images(images, at).1.len() == 0,
    decreases images.len(),
{
    if images.len() > 0 {
        assert(images[images.len() - 1].offset < at);
        assert forall|i: int| 0 <= i < images.len() - 1 implies (
        #[trigger] images.drop_last()[i]).offset < at by {
            assert(images[i].offset < at);
        }
        images_before_stay_left(images.drop_last(), at);
    }
}

/// Splitting the footnote references of a block and putting the right half behind the
/// left one again gives the references back.
pub proof fn split_notes_rejoin(notes: Seq<NoteModel>, at: int)
    requires
        forall|i: int, j: int|
            0 <= i < j < notes.len() ==> (#[trigger] notes[i]).offset <= (
            #[trigger] notes[j]).offset,
    ensures
        split_notes(notes, at).0 + notes_from(
            split_notes(notes, at).1,
            at,
        ) == notes,
    decreases notes.len(),
{
    let (left, right) = split_notes(notes, at);
    if notes.len() > 0 {
        let rest = notes.drop_last();
        let last = notes.last();
        assert forall|i: int, j: int| 0 <= i < j < rest.len() implies (#[trigger] rest[i]).offset
            <= (#[trigger] rest[j]).offset by {
            assert(notes[i].offset <= notes[j].offset);
        }
        split_notes_rejoin(rest, at);
        let (l, r) = split_notes(rest, at);
        if last.offset < at {
            assert forall|i: int| 0 <= i < rest.len() implies (#[trigger] rest[i]).offset < at by {
                assert(notes[i].offset <= notes[notes.len() - 1].offset);
            }
            notes_before_stay_left(rest, at);
            assert(l + notes_from(r, at) =~= l);
            assert(notes_from(right, at) =~= Seq::empty());
            assert(rest.push(last) =~= notes);
            assert(left + notes_from(right, at) =~= notes);
        } else {
            assert(notes_from(right, at) =~= notes_from(r, at).push(last));
            assert(l + notes_from(r, at).push(last) =~= (l + notes_from(r, at)).push(last));
            assert(rest.push(last) =~= notes);
            assert(left + notes_from(right, at) =~= notes);
        }
    } else {
        assert(left + notes_from(right, at) =~= notes);
    }
}

proof fn notes_before_stay_left(notes: Seq<NoteModel>, at: int)
    requires
        forall|i: int| 0 <= i < notes.len() ==> (#[trigger] notes[i]).offset < at,
    ensures
        split_notes(notes, at).1.len() == 0,
    decreases notes.len(),
{
    if notes.len() > 0 {
        assert(notes[notes.len() - 1].offset < at);
        assert forall|i: int| 0 <= i < notes.len() - 1 implies (
        #[trigger] notes.drop_last()[i]).offset < at by {
            assert(notes[i].offset < at);
        }
        notes_before_stay_left(notes.drop_last(), at);
    }
}

} // verus!
