//! Character formatting of a block, as sorted, non-overlapping byte spans.
use vstd::prelude::*;

use crate::entities::{CharVerticalAlignment, UnderlineStyle};
use crate::models::group_deep_view;
use crate::text::{same_optional_text, same_texts};

pub use crate::inline_pieces::{
    addressable_inline_pieces, apply_character_format_to_segment, block_anchors,
    capture_image_formats_in_range, character_format_from_segment, inline_segments_view,
    logical_offset_to_byte, merge_runs_and_anchors, shift_footnote_refs_for_insert,
    shift_images_after, shift_images_for_delete, shift_images_for_insert, split_footnote_refs_at,
    split_images_at, synth_element_id, AddressableInlinePiece, BlockAnchor, FootnoteRefAnchor,
    ImageAnchor, InlineContent, InlinePiece, InlineSegment,
};

verus! {

broadcast use group_deep_view;

/// What a [`CharacterFormat`] says, with texts as character sequences.
#[verifier::ext_equal]
pub struct FormatModel {
    pub font_family: Option<Seq<char>>,
    pub font_point_size: Option<i64>,
    pub font_weight: Option<i64>,
    pub font_bold: Option<bool>,
    pub font_italic: Option<bool>,
    pub font_underline: Option<bool>,
    pub font_overline: Option<bool>,
    pub font_strikeout: Option<bool>,
    pub letter_spacing: Option<i64>,
    pub word_spacing: Option<i64>,
    pub anchor_href: Option<Seq<char>>,
    pub anchor_names: Seq<Seq<char>>,
    pub is_anchor: Option<bool>,
    pub tooltip: Option<Seq<char>>,
    pub underline_style: Option<UnderlineStyle>,
    pub vertical_alignment: Option<CharVerticalAlignment>,
}

/// The format that says nothing.
pub open spec fn plain_format() -> FormatModel {
    FormatModel {
        font_family: None,
        font_point_size: None,
        font_weight: None,
        font_bold: None,
        font_italic: None,
        font_underline: None,
        font_overline: None,
        font_strikeout: None,
        letter_spacing: None,
        word_spacing: None,
        anchor_href: None,
        anchor_names: Seq::empty(),
        is_anchor: None,
        tooltip: None,
        underline_style: None,
        vertical_alignment: None,
    }
}

/// Character-level formatting for a contiguous byte span. One per
/// [`FormatRun`]; one per [`ImageAnchor`]. Fields mirror the `fmt_*`
/// set on [`InlineSegment`] so values copy across types verbatim.
#[derive(Debug)]
pub struct CharacterFormat {
    pub font_family: Option<String>,
    pub font_point_size: Option<i64>,
    pub font_weight: Option<i64>,
    pub font_bold: Option<bool>,
    pub font_italic: Option<bool>,
    pub font_underline: Option<bool>,
    pub font_overline: Option<bool>,
    pub font_strikeout: Option<bool>,
    pub letter_spacing: Option<i64>,
    pub word_spacing: Option<i64>,
    pub anchor_href: Option<String>,
    pub anchor_names: Vec<String>,
    pub is_anchor: Option<bool>,
    pub tooltip: Option<String>,
    pub underline_style: Option<UnderlineStyle>,
    pub vertical_alignment: Option<CharVerticalAlignment>,
}

impl DeepView for CharacterFormat {
    type V = FormatModel;

    open spec fn deep_view(&self) -> FormatModel {
        FormatModel {
            font_family: self.font_family.deep_view(),
            font_point_size: self.font_point_size,
            font_weight: self.font_weight,
            font_bold: self.font_bold,
            font_italic: self.font_italic,
            font_underline: self.font_underline,
            font_overline: self.font_overline,
            font_strikeout: self.font_strikeout,
            letter_spacing: self.letter_spacing,
            word_spacing: self.word_spacing,
            anchor_href: self.anchor_href.deep_view(),
            anchor_names: self.anchor_names.deep_view(),
            is_anchor: self.is_anchor,
            tooltip: self.tooltip.deep_view(),
            underline_style: self.underline_style,
            vertical_alignment: self.vertical_alignment,
        }
    }
}

impl Default for CharacterFormat {
    /// The format that says nothing.
    fn default() -> (format: Self)
        ensures
            format.deep_view() == plain_format(),
    {
        let format = CharacterFormat {
            font_family: None,
            font_point_size: None,
            font_weight: None,
            font_bold: None,
            font_italic: None,
            font_underline: None,
            font_overline: None,
            font_strikeout: None,
            letter_spacing: None,
            word_spacing: None,
            anchor_href: None,
            anchor_names: Vec::new(),
            is_anchor: None,
            tooltip: None,
            underline_style: None,
            vertical_alignment: None,
        };
        assert(format.deep_view() =~= plain_format());
        format
    }
}

impl Clone for CharacterFormat {
    fn clone(&self) -> (copy: Self)
        ensures
            copy.deep_view() == self.deep_view(),
    {
        let copy = CharacterFormat {
            font_family: self.font_family.clone(),
            font_point_size: self.font_point_size,
            font_weight: self.font_weight,
            font_bold: self.font_bold,
            font_italic: self.font_italic,
            font_underline: self.font_underline,
            font_overline: self.font_overline,
            font_strikeout: self.font_strikeout,
            letter_spacing: self.letter_spacing,
            word_spacing: self.word_spacing,
            anchor_href: self.anchor_href.clone(),
            anchor_names: self.anchor_names.clone(),
            is_anchor: self.is_anchor,
            tooltip: self.tooltip.clone(),
            underline_style: self.underline_style,
            vertical_alignment: self.vertical_alignment,
        };
        assert(copy.deep_view() =~= self.deep_view());
        copy
    }
}

impl PartialEq for CharacterFormat {
    fn eq(&self, other: &Self) -> (same: bool) {
        let same = self.font_point_size == other.font_point_size
            && self.font_weight == other.font_weight
            && self.font_bold == other.font_bold
            && self.font_italic == other.font_italic
            && self.font_underline == other.font_underline
            && self.font_overline == other.font_overline
            && self.font_strikeout == other.font_strikeout
            && self.letter_spacing == other.letter_spacing
            && self.word_spacing == other.word_spacing
            && self.is_anchor == other.is_anchor
            && self.underline_style == other.underline_style
            && self.vertical_alignment == other.vertical_alignment
            && same_optional_text(&self.font_family, &other.font_family)
            && same_optional_text(&self.anchor_href, &other.anchor_href)
            && same_texts(&self.anchor_names, &other.anchor_names)
            && same_optional_text(&self.tooltip, &other.tooltip);
        same
    }
}

impl vstd::std_specs::cmp::PartialEqSpecImpl for CharacterFormat {
    open spec fn obeys_eq_spec() -> bool {
        true
    }

    open spec fn eq_spec(&self, other: &Self) -> bool {
        self.deep_view() == other.deep_view()
    }
}

impl Eq for CharacterFormat {

}

/// One formatted span: the bytes `[start, end)` and what they wear.
#[verifier::ext_equal]
pub struct RunModel {
    pub start: int,
    pub end: int,
    pub format: FormatModel,
}

/// One run of identical character formatting inside a block. Byte offsets
/// are relative to the block's text.
#[derive(Debug)]
pub struct FormatRun {
    pub byte_start: u32,
    pub byte_end: u32,
    pub format: CharacterFormat,
}

impl DeepView for FormatRun {
    type V = RunModel;

    open spec fn deep_view(&self) -> RunModel {
        RunModel {
            start: self.byte_start as int,
            end: self.byte_end as int,
            format: self.format.deep_view(),
        }
    }
}

impl Clone for FormatRun {
    fn clone(&self) -> (copy: Self)
        ensures
            copy.deep_view() == self.deep_view(),
            copy.byte_start == self.byte_start,
            copy.byte_end == self.byte_end,
    {
        FormatRun {
            byte_start: self.byte_start,
            byte_end: self.byte_end,
            format: self.format.clone(),
        }
    }
}

impl PartialEq for FormatRun {
    fn eq(&self, other: &Self) -> (same: bool) {
        self.byte_start == other.byte_start && self.byte_end == other.byte_end && self.format
            == other.format
    }
}

impl vstd::std_specs::cmp::PartialEqSpecImpl for FormatRun {
    open spec fn obeys_eq_spec() -> bool {
        true
    }

    open spec fn eq_spec(&self, other: &Self) -> bool {
        self.deep_view() == other.deep_view()
    }
}

impl Eq for FormatRun {

}

/// Whether the second run continues the first in the same format.
pub open spec fn continues(a: RunModel, b: RunModel) -> bool {
    a.end == b.start && a.format == b.format
}

/// Appends a run, merging it into the last one where it continues it.
pub open spec fn add_run(runs: Seq<RunModel>, run: RunModel) -> Seq<RunModel> {
    if runs.len() > 0 && continues(runs.last(), run) {
        runs.drop_last().push(RunModel { end: run.end, ..runs.last() })
    } else {
        runs.push(run)
    }
}

/// The runs with every run merged into the one it continues.
pub open spec fn coalesced(runs: Seq<RunModel>) -> Seq<RunModel>
    decreases runs.len(),
{
    if runs.len() == 0 {
        runs
    } else {
        add_run(coalesced(runs.drop_last()), runs.last())
    }
}

/// Merge adjacent runs that have identical formatting. O(n).
pub fn coalesce_in_place(runs: &mut Vec<FormatRun>)
    ensures
        final(runs).deep_view() == coalesced(old(runs).deep_view()),
{
    let ghost all = runs.deep_view();
    if runs.len() < 2 {
        proof {
            reveal_with_fuel(coalesced, 3);
            assert(coalesced(all) =~= all);
        }
        return;
    }
    let mut write: usize = 0;
    proof {
        reveal_with_fuel(coalesced, 3);
        assert(all.take(1).drop_last() =~= Seq::<RunModel>::empty());
        assert(runs.deep_view().take(1) =~= coalesced(all.take(1)));
    }
    let len: usize = runs.len();
    for read in 1..len
        invariant
            write < read <= len,
            len == runs.len(),
            len == all.len(),
            runs.deep_view().take(write + 1) == coalesced(all.take(read as int)),
            runs.deep_view().skip(read as int) == all.skip(read as int),
    {
        let ghost done = runs.deep_view().take(write + 1);
        let ghost now = runs.deep_view();
        proof {
            assert(all.take(read + 1).drop_last() =~= all.take(read as int));
            assert(now.skip(read as int)[0] == all.skip(read as int)[0]);
            assert(all.skip(read + 1) =~= all.skip(read as int).skip(1));
            assert(now.skip(read + 1) =~= now.skip(read as int).skip(1));
        }
        if runs[write].byte_end == runs[read].byte_start && runs[write].format
            == runs[read].format {
            runs[write].byte_end = runs[read].byte_end;
        } else {
            write += 1;
            if write != read {
                runs[write] = runs[read].clone();
            }
        }
        proof {
            assert(runs.deep_view().take(write + 1) =~= coalesced(all.take(read + 1)));
            assert(runs.deep_view().skip(read + 1) =~= all.skip(read + 1));
        }
    }
    proof {
        assert(all.take(all.len() as int) =~= all);
    }
    let ghost before = runs.deep_view();
    runs.truncate(write + 1);
    assert(runs.deep_view() =~= before.take(write + 1));
}

/// A violation of the format-run invariants, reported instead of asserted, so
/// that an edit can be refused rather than mangle a block's formatting.
#[derive(Clone, Debug, PartialEq, Eq)]
pub enum FormatRunError {
    ReversedRange { start: u32, end: u32 },
    ReplacementOutsideRange { run_start: u32, run_end: u32, range_start: u32, range_end: u32 },
    EmptyRun { start: u32, end: u32 },
    RunsOverlap { index: usize, left: Box<FormatRun>, right: Box<FormatRun> },
    RunsNotCoalesced { index: usize },
    RunPastEndOfBlock { start: u32, end: u32, text_len: usize },
}

/// What a [`FormatRunError`] says.
pub enum RunErrorModel {
    ReversedRange { start: int, end: int },
    ReplacementOutsideRange { run_start: int, run_end: int, range_start: int, range_end: int },
    EmptyRun { start: int, end: int },
    RunsOverlap { index: int, left: RunModel, right: RunModel },
    RunsNotCoalesced { index: int },
    RunPastEndOfBlock { start: int, end: int, text_len: int },
}

impl DeepView for FormatRunError {
    type V = RunErrorModel;

    open spec fn deep_view(&self) -> RunErrorModel {
        match *self {
            FormatRunError::ReversedRange { start, end } => RunErrorModel::ReversedRange {
                start: start as int,
                end: end as int,
            },
            FormatRunError::ReplacementOutsideRange {
                run_start,
                run_end,
                range_start,
                range_end,
            } => RunErrorModel::ReplacementOutsideRange {
                run_start: run_start as int,
                run_end: run_end as int,
                range_start: range_start as int,
                range_end: range_end as int,
            },
            FormatRunError::EmptyRun { start, end } => RunErrorModel::EmptyRun {
                start: start as int,
                end: end as int,
            },
            FormatRunError::RunsOverlap { index, left, right } => RunErrorModel::RunsOverlap {
                index: index as int,
                left: left.deep_view(),
                right: right.deep_view(),
            },
            FormatRunError::RunsNotCoalesced { index } => RunErrorModel::RunsNotCoalesced {
                index: index as int,
            },
            FormatRunError::RunPastEndOfBlock { start, end, text_len } => {
                RunErrorModel::RunPastEndOfBlock {
                    start: start as int,
                    end: end as int,
                    text_len: text_len as int,
                }
            },
        }
    }
}

/// The invariants of a block's runs: none is empty, they are in order and do
/// not overlap, none continues the one before it, and the last ends within the
/// block's text.
pub open spec fn well_formed(runs: Seq<RunModel>, text_len: int) -> bool {
    &&& in_order(runs)
    &&& fully_merged(runs)
    &&& runs.len() > 0 ==> runs.last().end <= text_len
}

/// No run is empty, and each ends before the next begins.
pub open spec fn in_order(runs: Seq<RunModel>) -> bool {
    &&& forall|i: int| 0 <= i < runs.len() ==> (#[trigger] runs[i]).start < runs[i].end
    &&& forall|i: int, j: int|
        0 <= i < j < runs.len() ==> (#[trigger] runs[i]).end <= (#[trigger] runs[j]).start
}

/// No run continues the one before it.
pub open spec fn fully_merged(runs: Seq<RunModel>) -> bool {
    forall|i: int|
        0 < i < runs.len() ==> !continues(runs[i - 1], #[trigger] runs[i])
}

/// The first empty run from index `i` on.
pub open spec fn empty_run_error(runs: Seq<RunModel>, i: int) -> Option<RunErrorModel>
    decreases runs.len() - i,
{
    if i < 0 || i >= runs.len() {
        None
    } else if runs[i].start >= runs[i].end {
        Some(RunErrorModel::EmptyRun { start: runs[i].start, end: runs[i].end })
    } else {
        empty_run_error(runs, i + 1)
    }
}

/// The first pair of neighbours, from the one that ends at index `i` on, that
/// overlaps or that should have been merged.
pub open spec fn neighbour_error(runs: Seq<RunModel>, i: int) -> Option<RunErrorModel>
    decreases runs.len() - i,
{
    if i < 1 || i >= runs.len() {
        None
    } else if runs[i - 1].end > runs[i].start {
        Some(RunErrorModel::RunsOverlap { index: i - 1, left: runs[i - 1], right: runs[i] })
    } else if continues(runs[i - 1], runs[i]) {
        Some(RunErrorModel::RunsNotCoalesced { index: i - 1 })
    } else {
        neighbour_error(runs, i + 1)
    }
}

/// What is wrong with a block's runs: an empty run before a pair of bad
/// neighbours, and those before a run past the end of the text.
pub open spec fn run_error(runs: Seq<RunModel>, text_len: int) -> Option<RunErrorModel> {
    if empty_run_error(runs, 0) is Some {
        empty_run_error(runs, 0)
    } else if neighbour_error(runs, 1) is Some {
        neighbour_error(runs, 1)
    } else if runs.len() > 0 && runs.last().end > text_len {
        Some(
            RunErrorModel::RunPastEndOfBlock {
                start: runs.last().start,
                end: runs.last().end,
                text_len,
            },
        )
    } else {
        None
    }
}

/// Runs are reported exactly when they break one of the invariants.
pub proof fn run_error_iff_ill_formed(runs: Seq<RunModel>, text_len: int)
    ensures
        run_error(runs, text_len) is None <==> well_formed(runs, text_len),
{
    empty_run_error_iff(runs, 0);
    neighbour_error_iff(runs, 1);
    if run_error(runs, text_len) is None {
        order_from_neighbours(runs);
    }
}

proof fn empty_run_error_iff(runs: Seq<RunModel>, i: int)
    requires
        0 <= i,
    ensures
        empty_run_error(runs, i) is None <==> forall|j: int|
            i <= j < runs.len() ==> (#[trigger] runs[j]).start < runs[j].end,
    decreases runs.len() - i,
{
    if i < runs.len() {
        empty_run_error_iff(runs, i + 1);
    }
}

proof fn neighbour_error_iff(runs: Seq<RunModel>, i: int)
    requires
        1 <= i,
    ensures
        neighbour_error(runs, i) is None <==> forall|j: int|
            i <= j < runs.len() ==> runs[j - 1].end <= (#[trigger] runs[j]).start && !continues(
                runs[j - 1],
                runs[j],
            ),
    decreases runs.len() - i,
{
    if i < runs.len() {
        neighbour_error_iff(runs, i + 1);
    }
}

/// Runs that are not empty, and each of which ends before its neighbour
/// begins, are in order.
pub proof fn order_from_neighbours(runs: Seq<RunModel>)
    requires
        forall|i: int| 0 <= i < runs.len() ==> (#[trigger] runs[i]).start < runs[i].end,
        forall|i: int| 0 < i < runs.len() ==> runs[i - 1].end <= (#[trigger] runs[i]).start,
    ensures
        in_order(runs),
    decreases runs.len(),
{
    if runs.len() > 1 {
        let rest = runs.drop_last();
        assert forall|i: int| 0 < i < rest.len() implies rest[i - 1].end <= (#[trigger] rest[i]).start by {
            assert(runs[i - 1].end <= runs[i].start);
        }
        order_from_neighbours(rest);
        assert forall|i: int, j: int| 0 <= i < j < runs.len() implies (#[trigger] runs[i]).end <= (#[trigger] runs[j]).start by {
            assert(rest[rest.len() - 1] == runs[runs.len() - 2]);
            if j < rest.len() {
                assert(rest[i].end <= rest[j].start);
            } else if i < rest.len() - 1 {
                assert(rest[i].end <= rest[rest.len() - 1].start);
            }
        }
    }
}

/// The first empty run, reported.
fn find_empty_run(runs: &[FormatRun]) -> (res: Result<(), FormatRunError>)
    ensures
        match res {
            Ok(_) => empty_run_error(runs.deep_view(), 0) is None,
            Err(e) => empty_run_error(runs.deep_view(), 0) == Some(e.deep_view()),
        },
{
    let ghost all = runs.deep_view();
    for i in 0..runs.len()
        invariant
            all == runs.deep_view(),
            empty_run_error(all, 0) == empty_run_error(all, i as int),
    {
        let run = &runs[i];
        if run.byte_start >= run.byte_end {
            return Err(FormatRunError::EmptyRun { start: run.byte_start, end: run.byte_end });
        }
    }
    Ok(())
}

/// The first pair of neighbours that overlaps or should have been merged,
/// reported.
fn find_bad_neighbours(runs: &[FormatRun]) -> (res: Result<(), FormatRunError>)
    ensures
        match res {
            Ok(_) => neighbour_error(runs.deep_view(), 1) is None,
            Err(e) => neighbour_error(runs.deep_view(), 1) == Some(e.deep_view()),
        },
{
    let ghost all = runs.deep_view();
    let mut i: usize = 1;
    while i < runs.len()
        invariant
            1 <= i,
            all == runs.deep_view(),
            neighbour_error(all, 1) == neighbour_error(all, i as int),
        decreases runs.len() - i,
    {
        assert(all[i - 1] == runs@[i - 1].deep_view());
        assert(all[i as int] == runs@[i as int].deep_view());
        if runs[i - 1].byte_end > runs[i].byte_start {
            return Err(
                FormatRunError::RunsOverlap {
                    index: i - 1,
                    left: Box::new(runs[i - 1].clone()),
                    right: Box::new(runs[i].clone()),
                },
            );
        }
        if runs[i - 1].byte_end == runs[i].byte_start && runs[i - 1].format == runs[i].format {
            return Err(FormatRunError::RunsNotCoalesced { index: i - 1 });
        }
        i += 1;
    }
    Ok(())
}

/// The well-formedness of a block's runs, **reported rather than asserted**, so
/// that a caller that must not corrupt a block can refuse the edit.
pub fn check_well_formed(runs: &[FormatRun], block_text_len: usize) -> (res: Result<
    (),
    FormatRunError,
>)
    ensures
        match res {
            Ok(_) => run_error(runs.deep_view(), block_text_len as int) is None,
            Err(e) => run_error(runs.deep_view(), block_text_len as int) == Some(e.deep_view()),
        },
        res is Ok <==> well_formed(runs.deep_view(), block_text_len as int),
{
    proof {
        run_error_iff_ill_formed(runs.deep_view(), block_text_len as int);
    }
    let res = find_empty_run(runs);
    if res.is_err() {
        return res;
    }
    let res = find_bad_neighbours(runs);
    if res.is_err() {
        return res;
    }
    if runs.len() > 0 {
        let last = &runs[runs.len() - 1];
        assert(runs.deep_view().last() == last.deep_view());
        if last.byte_end as usize > block_text_len {
            return Err(
                FormatRunError::RunPastEndOfBlock {
                    start: last.byte_start,
                    end: last.byte_end,
                    text_len: block_text_len,
                },
            );
        }
    }
    Ok(())
}

/// Demands that a block's runs are well formed. Callers state it where an edit
/// has just rebuilt the runs.
///
/// # Invariants
/// 1. Runs are sorted by `byte_start` ascending.
/// 2. Each run has `byte_start < byte_end`.
/// 3. Runs are non-overlapping: `runs[i].byte_end <= runs[i+1].byte_start`.
/// 4. The last run's `byte_end` does not exceed `block_text_len`.
/// 5. Adjacent runs with identical format are coalesced (no two
///    consecutive runs satisfy `byte_end == next.byte_start &&
///    format == next.format`).
pub fn debug_assert_well_formed(runs: &[FormatRun], block_text_len: usize)
    requires
        well_formed(runs.deep_view(), block_text_len as int),
{
}

/// The parts of the runs that lie before a byte, the one across it clipped.
pub open spec fn before(runs: Seq<RunModel>, at: int) -> Seq<RunModel>
    decreases runs.len(),
{
    if runs.len() == 0 {
        runs
    } else {
        let kept = before(runs.drop_last(), at);
        let run = runs.last();
        if run.end <= at {
            kept.push(run)
        } else if run.start < at {
            kept.push(RunModel { end: at, ..run })
        } else {
            kept
        }
    }
}

/// The parts of the runs that lie at or after a byte, the one across it clipped.
pub open spec fn after(runs: Seq<RunModel>, at: int) -> Seq<RunModel>
    decreases runs.len(),
{
    if runs.len() == 0 {
        runs
    } else {
        let kept = after(runs.drop_last(), at);
        let run = runs.last();
        if run.start >= at {
            kept.push(run)
        } else if run.end > at {
            kept.push(RunModel { start: at, ..run })
        } else {
            kept
        }
    }
}

/// The runs with those over `[start, end)` replaced.
pub open spec fn spliced(
    runs: Seq<RunModel>,
    start: int,
    end: int,
    replacement: Seq<RunModel>,
) -> Seq<RunModel> {
    coalesced(before(runs, start) + replacement + after(runs, end))
}

/// The first replacement run, from index `i` on, that is empty or leaves the range.
pub open spec fn replacement_error(
    replacement: Seq<RunModel>,
    start: int,
    end: int,
    i: int,
) -> Option<RunErrorModel>
    decreases replacement.len() - i,
{
    if i < 0 || i >= replacement.len() {
        None
    } else if replacement[i].start >= replacement[i].end {
        Some(RunErrorModel::EmptyRun { start: replacement[i].start, end: replacement[i].end })
    } else if replacement[i].start < start || replacement[i].end > end {
        Some(
            RunErrorModel::ReplacementOutsideRange {
                run_start: replacement[i].start,
                run_end: replacement[i].end,
                range_start: start,
                range_end: end,
            },
        )
    } else {
        replacement_error(replacement, start, end, i + 1)
    }
}

/// The first pair of replacement runs, from the one that ends at index `i` on, that overlaps.
pub open spec fn overlap_error(replacement: Seq<RunModel>, i: int) -> Option<RunErrorModel>
    decreases replacement.len() - i,
{
    if i < 1 || i >= replacement.len() {
        None
    } else if replacement[i - 1].end > replacement[i].start {
        Some(
            RunErrorModel::RunsOverlap {
                index: i - 1,
                left: replacement[i - 1],
                right: replacement[i],
            },
        )
    } else {
        overlap_error(replacement, i + 1)
    }
}

/// Why a splice is refused, if it is.
pub open spec fn splice_error(start: int, end: int, replacement: Seq<RunModel>) -> Option<
    RunErrorModel,
> {
    if start > end {
        Some(RunErrorModel::ReversedRange { start, end })
    } else if replacement_error(replacement, start, end, 0) is Some {
        replacement_error(replacement, start, end, 0)
    } else {
        overlap_error(replacement, 1)
    }
}

/// A replacement that fits a range: in order, and within it.
pub open spec fn fits(replacement: Seq<RunModel>, start: int, end: int) -> bool {
    &&& start <= end
    &&& in_order(replacement)
    &&& forall|i: int|
        0 <= i < replacement.len() ==> start <= (#[trigger] replacement[i]).start
            && replacement[i].end <= end
}

/// A splice is refused exactly when its replacement does not fit its range.
pub proof fn splice_error_iff_misfit(start: int, end: int, replacement: Seq<RunModel>)
    ensures
        splice_error(start, end, replacement) is None <==> fits(replacement, start, end),
{
    replacement_error_iff(replacement, start, end, 0);
    overlap_error_iff(replacement, 1);
    if splice_error(start, end, replacement) is None {
        order_from_neighbours(replacement);
    }
}

proof fn replacement_error_iff(replacement: Seq<RunModel>, start: int, end: int, i: int)
    requires
        0 <= i,
    ensures
        replacement_error(replacement, start, end, i) is None <==> forall|j: int|
            i <= j < replacement.len() ==> (#[trigger] replacement[j]).start < replacement[j].end
                && start <= replacement[j].start && replacement[j].end <= end,
    decreases replacement.len() - i,
{
    if i < replacement.len() {
        replacement_error_iff(replacement, start, end, i + 1);
    }
}

proof fn overlap_error_iff(runs: Seq<RunModel>, i: int)
    requires
        1 <= i,
    ensures
        overlap_error(runs, i) is None <==> forall|j: int|
            i <= j < runs.len() ==> runs[j - 1].end <= (#[trigger] runs[j]).start,
    decreases runs.len() - i,
{
    if i < runs.len() {
        overlap_error_iff(runs, i + 1);
    }
}

/// Replaces the runs over `range`, with the contract **checked and reported**.
///
/// Runs that straddle a boundary of the range are clipped; runs within it are
/// removed. Nothing is shifted. The runs are left untouched on `Err`:
/// validation happens before any mutation, so a rejected splice cannot
/// half-apply.
pub fn try_splice_range(
    runs: &mut Vec<FormatRun>,
    range: std::ops::Range<u32>,
    replacement: Vec<FormatRun>,
) -> (res: Result<(), FormatRunError>)
    ensures
        match res {
            Ok(_) => {
                &&& splice_error(range.start as int, range.end as int, replacement.deep_view()) is None
                &&& final(runs).deep_view() == spliced(
                    old(runs).deep_view(),
                    range.start as int,
                    range.end as int,
                    replacement.deep_view(),
                )
            },
            Err(e) => {
                &&& splice_error(range.start as int, range.end as int, replacement.deep_view())
                    == Some(e.deep_view())
                &&& *final(runs) == *old(runs)
            },
        },
        res is Ok <==> fits(replacement.deep_view(), range.start as int, range.end as int),
{
    let start: u32 = range.start;
    let end: u32 = range.end;
    let ghost put = replacement.deep_view();
    let ghost all = runs.deep_view();
    proof {
        splice_error_iff_misfit(start as int, end as int, put);
    }
    if start > end {
        return Err(FormatRunError::ReversedRange { start, end });
    }
    for i in 0..replacement.len()
        invariant
            start <= end,
            *runs == *old(runs),
            put == replacement.deep_view(),
            replacement_error(put, start as int, end as int, 0) == replacement_error(
                put,
                start as int,
                end as int,
                i as int,
            ),
            splice_error(start as int, end as int, put) is None <==> fits(
                put,
                start as int,
                end as int,
            ),
            start == range.start,
            end == range.end,
    {
        let r = &replacement[i];
        if r.byte_start >= r.byte_end {
            return Err(FormatRunError::EmptyRun { start: r.byte_start, end: r.byte_end });
        }
        if r.byte_start < start || r.byte_end > end {
            return Err(
                FormatRunError::ReplacementOutsideRange {
                    run_start: r.byte_start,
                    run_end: r.byte_end,
                    range_start: start,
                    range_end: end,
                },
            );
        }
    }
    let count: usize = replacement.len();
    let mut i: usize = 1;
    while i < count
        invariant
            1 <= i,
            count == replacement.len(),
            start <= end,
            *runs == *old(runs),
            put == replacement.deep_view(),
            replacement_error(put, start as int, end as int, 0) is None,
            overlap_error(put, 1) == overlap_error(put, i as int),
            i >= count ==> overlap_error(put, 1) is None,
            splice_error(start as int, end as int, put) is None <==> fits(
                put,
                start as int,
                end as int,
            ),
            start == range.start,
            end == range.end,
        decreases count - i,
    {
        if replacement[i - 1].byte_end > replacement[i].byte_start {
            return Err(
                FormatRunError::RunsOverlap {
                    index: i - 1,
                    left: Box::new(replacement[i - 1].clone()),
                    right: Box::new(replacement[i].clone()),
                },
            );
        }
        i += 1;
    }
    let mut result: Vec<FormatRun> = Vec::new();
    for i in 0..runs.len()
        invariant
            all == runs.deep_view(),
            result.deep_view() == before(all.take(i as int), start as int),
    {
        let run = &runs[i];
        proof {
            assert(all.take(i + 1).drop_last() =~= all.take(i as int));
        }
        if run.byte_end <= start {
            result.push(run.clone());
        } else if run.byte_start < start {
            result.push(
                FormatRun {
                    byte_start: run.byte_start,
                    byte_end: start,
                    format: run.format.clone(),
                },
            );
        }
    }
    proof {
        assert(all.take(all.len() as int) =~= all);
    }
    let mut replacement = replacement;
    let ghost left = result.deep_view();
    result.append(&mut replacement);
    assert(result.deep_view() =~= left + put);
    for i in 0..runs.len()
        invariant
            all == runs.deep_view(),
            result.deep_view() == left + put + after(all.take(i as int), end as int),
    {
        let run = &runs[i];
        proof {
            assert(all.take(i + 1).drop_last() =~= all.take(i as int));
        }
        let ghost kept = after(all.take(i as int), end as int);
        if run.byte_start >= end {
            result.push(run.clone());
            assert(result.deep_view() =~= left + put + kept.push(run.deep_view()));
        } else if run.byte_end > end {
            result.push(
                FormatRun { byte_start: end, byte_end: run.byte_end, format: run.format.clone() },
            );
            assert(result.deep_view() =~= left + put + kept.push(
                RunModel { start: end as int, ..run.deep_view() },
            ));
        }
    }
    coalesce_in_place(&mut result);
    *runs = result;
    Ok(())
}

/// Replace the runs covering `range` with `replacement`, preserving the
/// invariants. Runs that straddle the range boundary are clipped on
/// either side; runs fully contained are removed.
///
/// The replacement byte ranges must lie within `range` and themselves be
/// well-formed (sorted, non-overlapping); a replacement that is not leaves the
/// runs as they are. The function does NOT shift bytes after `range.end`:
/// callers wanting to splice in a different-length text must call
/// [`shift_after`] first or after, depending on whether the text length is
/// changing.
pub fn splice_range(
    runs: &mut Vec<FormatRun>,
    range: std::ops::Range<u32>,
    replacement: Vec<FormatRun>,
)
    ensures
        fits(replacement.deep_view(), range.start as int, range.end as int) ==> final(runs).deep_view() == spliced(
            old(runs).deep_view(),
            range.start as int,
            range.end as int,
            replacement.deep_view(),
        ),
        !fits(replacement.deep_view(), range.start as int, range.end as int) ==> *final(runs)
            == *old(runs),
{
    let _ = try_splice_range(runs, range, replacement);
}

/// The parts of the runs that lie within `[start, end)`.
pub open spec fn captured(runs: Seq<RunModel>, start: int, end: int) -> Seq<RunModel>
    decreases runs.len(),
{
    if runs.len() == 0 {
        runs
    } else {
        let kept = captured(runs.drop_last(), start, end);
        let run = clipped(runs.last(), start, end);
        if runs.last().end <= start || runs.last().start >= end || run.start >= run.end {
            kept
        } else {
            kept.push(run)
        }
    }
}

/// A run cut down to `[start, end)`.
pub open spec fn clipped(run: RunModel, start: int, end: int) -> RunModel {
    RunModel {
        start: if run.start >= start {
            run.start
        } else {
            start
        },
        end: if run.end <= end {
            run.end
        } else {
            end
        },
        ..run
    }
}

/// Capture the slice of `runs` that intersects `[start..end)`, clipped
/// to those bounds. Used by hand-rolled-inverse undo for format-only
/// edits: callers capture this BEFORE calling [`splice_range`], and
/// on undo splice the captured runs back into the same byte range to
/// restore the prior state.
///
/// Gaps in the original runs (positions inside `[start..end)` with no
/// formatting) become gaps in the captured output too: the undo
/// splice preserves them faithfully.
pub fn capture_runs_in_range(runs: &[FormatRun], start: u32, end: u32) -> (out: Vec<FormatRun>)
    ensures
        out.deep_view() == captured(runs.deep_view(), start as int, end as int),
{
    let ghost all = runs.deep_view();
    let mut out: Vec<FormatRun> = Vec::new();
    for i in 0..runs.len()
        invariant
            all == runs.deep_view(),
            out.deep_view() == captured(all.take(i as int), start as int, end as int),
    {
        let run = &runs[i];
        proof {
            assert(all.take(i + 1).drop_last() =~= all.take(i as int));
        }
        if !(run.byte_end <= start || run.byte_start >= end) {
            let clipped_start: u32 = if run.byte_start >= start {
                run.byte_start
            } else {
                start
            };
            let clipped_end: u32 = if run.byte_end <= end {
                run.byte_end
            } else {
                end
            };
            if clipped_start < clipped_end {
                out.push(
                    FormatRun {
                        byte_start: clipped_start,
                        byte_end: clipped_end,
                        format: run.format.clone(),
                    },
                );
            }
        }
    }
    proof {
        assert(all.take(all.len() as int) =~= all);
    }
    out
}

/// One run after a shift of everything at or past `threshold`.
pub open spec fn shift_run(run: RunModel, threshold: int, delta: int) -> RunModel {
    if run.start >= threshold {
        RunModel {
            start: (run.start + delta) % 0x1_0000_0000,
            end: (run.end + delta) % 0x1_0000_0000,
            ..run
        }
    } else {
        run
    }
}

/// Whether a run can be shifted without passing zero or turning round.
pub open spec fn can_shift(run: RunModel, threshold: int, delta: int) -> bool {
    run.start >= threshold ==> run.start + delta >= 0 && run.start <= run.end
}

/// Shift the byte offsets of every run whose `byte_start >= threshold`
/// by `delta`. Used after a text insert/delete to keep downstream runs
/// in sync with the new block text. Runs strictly before the threshold
/// are unaffected; runs that straddle the threshold are left alone
/// (the caller should have spliced them first).
///
/// No shifted run may fall below offset zero. An offset past `u32::MAX` wraps.
pub fn shift_after(runs: &mut Vec<FormatRun>, threshold: u32, delta: i32)
    requires
        forall|i: int|
            0 <= i < old(runs).deep_view().len() ==> can_shift(
                #[trigger] old(runs).deep_view()[i],
                threshold as int,
                delta as int,
            ),
    ensures
        final(runs).deep_view() == old(runs).deep_view().map_values(
            |run: RunModel| shift_run(run, threshold as int, delta as int),
        ),
{
    let ghost all = runs.deep_view();
    let len: usize = runs.len();
    for i in 0..len
        invariant
            len == runs.len(),
            len == all.len(),
            forall|j: int|
                0 <= j < all.len() ==> can_shift(
                    #[trigger] all[j],
                    threshold as int,
                    delta as int,
                ),
            forall|j: int|
                0 <= j < i ==> #[trigger] runs.deep_view()[j] == shift_run(
                    all[j],
                    threshold as int,
                    delta as int,
                ),
            forall|j: int| i <= j < len ==> #[trigger] runs.deep_view()[j] == all[j],
    {
        let ghost now = runs.deep_view();
        proof {
            assert(now[i as int] == all[i as int]);
            assert(can_shift(all[i as int], threshold as int, delta as int));
        }
        if runs[i].byte_start >= threshold {
            let new_start: i64 = runs[i].byte_start as i64 + delta as i64;
            let new_end: i64 = runs[i].byte_end as i64 + delta as i64;
            runs[i].byte_start = (new_start as u64 % 0x1_0000_0000u64) as u32;
            runs[i].byte_end = (new_end as u64 % 0x1_0000_0000u64) as u32;
        }
        proof {
            assert(runs.deep_view() =~= now.update(
                i as int,
                shift_run(now[i as int], threshold as int, delta as int),
            ));
        }
    }
    assert(runs.deep_view() =~= all.map_values(
        |run: RunModel| shift_run(run, threshold as int, delta as int),
    ));
}

/// One run after `n` bytes were inserted at `at`.
pub open spec fn insert_into_run(run: RunModel, at: int, n: int) -> RunModel {
    if run.start >= at {
        RunModel { start: run.start + n, end: run.end + n, ..run }
    } else if run.end >= at {
        RunModel { end: run.end + n, ..run }
    } else {
        run
    }
}

/// The runs after `n` bytes were inserted at `at`.
pub open spec fn inserted(runs: Seq<RunModel>, at: int, n: int) -> Seq<RunModel> {
    runs.map_values(|run: RunModel| insert_into_run(run, at, n))
}

/// Whether no offset leaves the 32-bit range when `n` bytes are inserted at `at`.
pub open spec fn can_insert(runs: Seq<RunModel>, at: int, n: int) -> bool {
    forall|i: int|
        0 <= i < runs.len() ==> insert_into_run(#[trigger] runs[i], at, n).start <= u32::MAX
            && insert_into_run(runs[i], at, n).end <= u32::MAX
}

/// Apply an "insert `inserted_bytes` of text at `byte_offset`" mutation
/// to a block's runs in place. Runs strictly before the offset are
/// unchanged; runs strictly after are shifted by +inserted_bytes; runs
/// that straddle the offset are extended (the inserted text inherits
/// the surrounding run's format: the Qt / ProseMirror convention).
pub fn shift_runs_for_insert(runs: &mut Vec<FormatRun>, byte_offset: u32, inserted_bytes: u32)
    requires
        can_insert(old(runs).deep_view(), byte_offset as int, inserted_bytes as int),
    ensures
        final(runs).deep_view() == inserted(
            old(runs).deep_view(),
            byte_offset as int,
            inserted_bytes as int,
        ),
{
    let ghost all = runs.deep_view();
    if inserted_bytes == 0 {
        assert(inserted(all, byte_offset as int, 0) =~= all);
        return;
    }
    let len: usize = runs.len();
    for i in 0..len
        invariant
            len == runs.len(),
            len == all.len(),
            can_insert(all, byte_offset as int, inserted_bytes as int),
            forall|j: int|
                0 <= j < i ==> #[trigger] runs.deep_view()[j] == insert_into_run(
                    all[j],
                    byte_offset as int,
                    inserted_bytes as int,
                ),
            forall|j: int| i <= j < len ==> #[trigger] runs.deep_view()[j] == all[j],
    {
        let ghost now = runs.deep_view();
        proof {
            assert(now[i as int] == all[i as int]);
        }
        if runs[i].byte_start >= byte_offset {
            let start: u32 = runs[i].byte_start + inserted_bytes;
            let end: u32 = runs[i].byte_end + inserted_bytes;
            runs[i].byte_start = start;
            runs[i].byte_end = end;
        } else if runs[i].byte_end >= byte_offset {
            // The run straddles the insertion point, or its right edge sits
            // exactly on it. In both cases the inserted text inherits
            // this run's format.
            let end: u32 = runs[i].byte_end + inserted_bytes;
            runs[i].byte_end = end;
        }
        proof {
            assert(runs.deep_view() =~= now.update(
                i as int,
                insert_into_run(now[i as int], byte_offset as int, inserted_bytes as int),
            ));
        }
    }
    assert(runs.deep_view() =~= inserted(all, byte_offset as int, inserted_bytes as int));
}

/// One run after everything at or past `threshold` moved back by `by`.
pub open spec fn pull_run(run: RunModel, threshold: int, by: int) -> RunModel {
    if run.start >= threshold {
        RunModel { start: run.start - by, end: run.end - by, ..run }
    } else {
        run
    }
}

/// Every run at or past `threshold` moved back by `by`.
pub open spec fn pulled(runs: Seq<RunModel>, threshold: int, by: int) -> Seq<RunModel> {
    runs.map_values(|run: RunModel| pull_run(run, threshold, by))
}

/// The runs after the bytes `[start, end)` were deleted.
pub open spec fn deleted(runs: Seq<RunModel>, start: int, end: int) -> Seq<RunModel> {
    if end <= start {
        runs
    } else {
        coalesced(pulled(spliced(runs, start, end, Seq::empty()), end, end - start))
    }
}

/// No run that begins at or past a byte is reversed.
pub open spec fn forward_from(runs: Seq<RunModel>, at: int) -> bool {
    forall|i: int|
        0 <= i < runs.len() ==> (#[trigger] runs[i]).start >= at ==> runs[i].start <= runs[i].end
}

proof fn coalesced_forward(runs: Seq<RunModel>, at: int)
    requires
        forward_from(runs, at),
    ensures
        forward_from(coalesced(runs), at),
    decreases runs.len(),
{
    if runs.len() > 0 {
        assert(forward_from(runs.drop_last(), at));
        coalesced_forward(runs.drop_last(), at);
        let kept = coalesced(runs.drop_last());
        assert(runs.last() == runs[runs.len() - 1]);
        if kept.len() > 0 {
            assert(kept.last() == kept[kept.len() - 1]);
        }
    }
}

proof fn sides_forward(runs: Seq<RunModel>, start: int, end: int)
    requires
        start < end,
        forward_from(runs, end),
    ensures
        forward_from(before(runs, start), end),
        forward_from(after(runs, end), end),
    decreases runs.len(),
{
    if runs.len() > 0 {
        assert(forward_from(runs.drop_last(), end));
        sides_forward(runs.drop_last(), start, end);
        assert(runs.last() == runs[runs.len() - 1]);
    }
}

/// Moves every run at or past `threshold` back by `by` bytes.
fn pull_back(runs: &mut Vec<FormatRun>, threshold: u32, by: u32)
    requires
        by <= threshold,
        forward_from(old(runs).deep_view(), threshold as int),
    ensures
        final(runs).deep_view() == pulled(old(runs).deep_view(), threshold as int, by as int),
{
    let ghost all = runs.deep_view();
    let len: usize = runs.len();
    for i in 0..len
        invariant
            len == runs.len(),
            len == all.len(),
            by <= threshold,
            forward_from(all, threshold as int),
            forall|j: int|
                0 <= j < i ==> #[trigger] runs.deep_view()[j] == pull_run(
                    all[j],
                    threshold as int,
                    by as int,
                ),
            forall|j: int| i <= j < len ==> #[trigger] runs.deep_view()[j] == all[j],
    {
        let ghost now = runs.deep_view();
        proof {
            assert(now[i as int] == all[i as int]);
        }
        if runs[i].byte_start >= threshold {
            let start: u32 = runs[i].byte_start - by;
            let end: u32 = runs[i].byte_end - by;
            runs[i].byte_start = start;
            runs[i].byte_end = end;
        }
        proof {
            assert(runs.deep_view() =~= now.update(
                i as int,
                pull_run(now[i as int], threshold as int, by as int),
            ));
        }
    }
    assert(runs.deep_view() =~= pulled(all, threshold as int, by as int));
}

/// Apply a "delete byte range `[byte_start..byte_end)`" mutation to a
/// block's runs. Splices the range with empty replacement (clipping
/// straddling runs) and shifts everything past `byte_end` back by the
/// deleted length. Adjacent runs that end up equal-format are coalesced.
pub fn shift_runs_for_delete(runs: &mut Vec<FormatRun>, byte_start: u32, byte_end: u32)
    requires
        byte_start < byte_end ==> forward_from(old(runs).deep_view(), byte_end as int),
    ensures
        final(runs).deep_view() == deleted(
            old(runs).deep_view(),
            byte_start as int,
            byte_end as int,
        ),
{
    if byte_end <= byte_start {
        return;
    }
    let ghost all = runs.deep_view();
    let nothing: Vec<FormatRun> = Vec::new();
    splice_range(runs, byte_start..byte_end, nothing);
    proof {
        assert(nothing.deep_view() =~= Seq::<RunModel>::empty());
        sides_forward(all, byte_start as int, byte_end as int);
        let kept = before(all, byte_start as int);
        let whole = kept + Seq::<RunModel>::empty() + after(all, byte_end as int);
        assert forall|i: int|
            0 <= i < whole.len() && (#[trigger] whole[i]).start >= byte_end implies whole[i].start
            <= whole[i].end by {
            if i < kept.len() {
                assert(whole[i] == kept[i]);
            } else {
                assert(whole[i] == after(all, byte_end as int)[i - kept.len()]);
            }
        }
        coalesced_forward(whole, byte_end as int);
    }
    pull_back(runs, byte_end, byte_end - byte_start);
    // The shift can make a left-clipped run abut a shifted trailing run
    // with identical format; coalesce once more to restore the invariant.
    coalesce_in_place(runs);
}

/// What the replacement text wears when it overwrites formatted text.
#[derive(Clone, Copy, Debug, PartialEq, Eq, Structural)]
pub enum ReplaceFormatPolicy {
    /// The replacement inherits the format of the run that straddles the start of the
    /// replaced range or ends exactly on it (precisely: `byte_start < start &&
    /// byte_end >= start`); otherwise it is unformatted. A run beginning *exactly* at
    /// the start never contributes.
    ///
    /// This is the Qt / ProseMirror insertion convention, and what a delete
    /// followed by an insert produces.
    InheritPreceding,
    /// If a **single run covers the whole replaced range**, the replacement keeps that
    /// run's format; otherwise fall back to [`Self::InheritPreceding`]. "Rename a name
    /// that was entirely bold and it stays bold", without guessing when the range is
    /// formatted unevenly.
    PreserveIfFullyCovered,
    /// The replacement takes the format that covered the **most bytes** of the replaced
    /// range. Unformatted gaps count as a candidate, so a mostly-plain range stays
    /// plain; ties go to the *formatted* run, because a tie means the writer's
    /// formatting covered at least as much as its absence and dropping it is the
    /// destructive answer.
    KeepDominantRun,
    /// The replacement carries no formatting at all.
    PreserveNothing,
}

impl Default for ReplaceFormatPolicy {
    fn default() -> (policy: Self)
        ensures
            policy == ReplaceFormatPolicy::InheritPreceding,
    {
        ReplaceFormatPolicy::InheritPreceding
    }
}

/// Whether a run covers all of `[start, end)`.
pub open spec fn covers(run: RunModel, start: int, end: int) -> bool {
    run.start <= start && run.end >= end
}

/// The format of the first run, from index `i` on, that covers all of `[start, end)`.
pub open spec fn first_covering(runs: Seq<RunModel>, start: int, end: int, i: int) -> Option<
    FormatModel,
>
    decreases runs.len() - i,
{
    if i < 0 || i >= runs.len() {
        None
    } else if covers(runs[i], start, end) {
        Some(runs[i].format)
    } else {
        first_covering(runs, start, end, i + 1)
    }
}

/// The format of the single run covering **all** of `[start..end)`, if one does.
///
/// An empty range is covered by nothing: a pure insertion has no formatting of its own
/// to preserve.
pub open spec fn covering(runs: Seq<RunModel>, start: int, end: int) -> Option<FormatModel> {
    if end <= start {
        None
    } else {
        first_covering(runs, start, end, 0)
    }
}

/// The format of the single run covering **all** of `[start..end)`, if one does.
fn covering_format(runs: &Vec<FormatRun>, start: u32, end: u32) -> (format: Option<
    CharacterFormat,
>)
    ensures
        format.deep_view() == covering(runs.deep_view(), start as int, end as int),
{
    if end <= start {
        return None;
    }
    let ghost all = runs.deep_view();
    for i in 0..runs.len()
        invariant
            all == runs.deep_view(),
            end > start,
            first_covering(all, start as int, end as int, 0) == first_covering(
                all,
                start as int,
                end as int,
                i as int,
            ),
    {
        let r = &runs[i];
        if r.byte_start <= start && r.byte_end >= end {
            return Some(r.format.clone());
        }
    }
    None
}

/// How many bytes of `[start, end)` a run covers.
pub open spec fn overlap(run: RunModel, start: int, end: int) -> int {
    let part = clipped(run, start, end);
    if part.end <= part.start {
        0
    } else {
        part.end - part.start
    }
}

/// How many bytes of `[start, end)` the runs cover together.
pub open spec fn covered(runs: Seq<RunModel>, start: int, end: int) -> int
    decreases runs.len(),
{
    if runs.len() == 0 {
        0
    } else {
        covered(runs.drop_last(), start, end) + overlap(runs.last(), start, end)
    }
}

/// The largest overlap any run has with `[start, end)`, and the format of the
/// earliest run that has it. `None` where no run touches the range.
pub open spec fn widest(runs: Seq<RunModel>, start: int, end: int) -> Option<(int, FormatModel)>
    decreases runs.len(),
{
    if runs.len() == 0 {
        None
    } else {
        let best = widest(runs.drop_last(), start, end);
        let width = overlap(runs.last(), start, end);
        match best {
            _ if width == 0 => best,
            Some((most, _)) if width <= most => best,
            _ => Some((width, runs.last().format)),
        }
    }
}

/// The format covering the most bytes of `[start..end)`, or `None` if unformatted text
/// covers more than any single run.
pub open spec fn dominant(runs: Seq<RunModel>, start: int, end: int) -> Option<FormatModel> {
    if end <= start {
        None
    } else {
        let plain = end - start - covered(runs, start, end);
        match widest(runs, start, end) {
            Some((width, format)) => if width >= plain {
                Some(format)
            } else {
                None
            },
            None => None,
        }
    }
}

proof fn covered_grows(runs: Seq<RunModel>, start: int, end: int, i: int)
    requires
        0 <= i <= runs.len(),
    ensures
        0 <= covered(runs.take(i), start, end) <= covered(runs, start, end),
    decreases runs.len(),
{
    if i < runs.len() {
        assert(runs.drop_last().take(i) =~= runs.take(i));
        covered_grows(runs.drop_last(), start, end, i);
    } else {
        assert(runs.take(i) =~= runs);
        if runs.len() > 0 {
            assert(runs.drop_last().take(i - 1) =~= runs.drop_last());
            covered_grows(runs.drop_last(), start, end, i - 1);
        }
    }
}

/// The format covering the most bytes of `[start..end)`, or `None` if unformatted text
/// covers more than any single run.
///
/// Gaps count as a candidate, so renaming inside a mostly-plain range stays plain. Ties
/// go to the formatted run: a tie means the formatting covered at least as much of the
/// range as its absence did, and dropping it is the destructive outcome.
fn dominant_format(runs: &Vec<FormatRun>, start: u32, end: u32) -> (format: Option<
    CharacterFormat,
>)
    requires
        start < end ==> covered(runs.deep_view(), start as int, end as int) <= end - start,
    ensures
        format.deep_view() == dominant(runs.deep_view(), start as int, end as int),
{
    if end <= start {
        return None;
    }
    let ghost all = runs.deep_view();
    let span: u64 = (end - start) as u64;
    let mut total: u64 = 0;
    let mut width: u64 = 0;
    let mut best: Option<usize> = None;
    for i in 0..runs.len()
        invariant
            all == runs.deep_view(),
            start < end,
            covered(all, start as int, end as int) <= end - start,
            total == covered(all.take(i as int), start as int, end as int),
            best is None <==> widest(all.take(i as int), start as int, end as int) is None,
            best is Some ==> best->0 < i && widest(all.take(i as int), start as int, end as int)
                == Some((width as int, all[best->0 as int].format)),
    {
        let r = &runs[i];
        proof {
            assert(all.take(i + 1).drop_last() =~= all.take(i as int));
            covered_grows(all, start as int, end as int, i + 1);
        }
        let lo: u32 = if r.byte_start >= start {
            r.byte_start
        } else {
            start
        };
        let hi: u32 = if r.byte_end <= end {
            r.byte_end
        } else {
            end
        };
        if lo < hi {
            let wide: u64 = (hi - lo) as u64;
            total = total + wide;
            // `>` keeps the EARLIEST run on a tie between two runs.
            if best.is_none() || wide > width {
                width = wide;
                best = Some(i);
            }
        }
    }
    proof {
        assert(all.take(all.len() as int) =~= all);
    }
    let plain: u64 = span - total;
    match best {
        Some(i) => if width >= plain {
            Some(runs[i].format.clone())
        } else {
            None
        },
        None => None,
    }
}

/// The format a policy forces on the replacement: `None` where the insert
/// convention decides, `Some(None)` where the replacement is unformatted.
pub open spec fn forced_format(
    runs: Seq<RunModel>,
    start: int,
    end: int,
    policy: ReplaceFormatPolicy,
) -> Option<Option<FormatModel>> {
    match policy {
        ReplaceFormatPolicy::InheritPreceding => None,
        ReplaceFormatPolicy::PreserveNothing => Some(None),
        ReplaceFormatPolicy::PreserveIfFullyCovered => match covering(runs, start, end) {
            Some(format) => Some(Some(format)),
            None => None,
        },
        ReplaceFormatPolicy::KeepDominantRun => if end > start {
            Some(dominant(runs, start, end))
        } else {
            None
        },
    }
}

/// The runs that dress `[start, start + n)` in one format, or in none.
pub open spec fn dressing(start: int, n: int, format: Option<FormatModel>) -> Seq<RunModel> {
    match format {
        Some(format) => seq![RunModel { start, end: start + n, format }],
        None => Seq::empty(),
    }
}

/// The runs after the bytes `[start, end)` were replaced by `n` bytes.
pub open spec fn replaced(
    runs: Seq<RunModel>,
    start: int,
    end: int,
    n: int,
    policy: ReplaceFormatPolicy,
) -> Seq<RunModel> {
    let inherited = inserted(deleted(runs, start, end), start, n);
    match forced_format(runs, start, end, policy) {
        Some(format) => if n > 0 {
            spliced(inherited, start, start + n, dressing(start, n, format))
        } else {
            inherited
        },
        None => inherited,
    }
}

/// Whether the offsets of a replacement stay within the 32-bit range, and the
/// runs are such that their coverage can be compared.
pub open spec fn can_replace(
    runs: Seq<RunModel>,
    start: int,
    end: int,
    n: int,
    policy: ReplaceFormatPolicy,
) -> bool {
    &&& start < end ==> forward_from(runs, end)
    &&& can_insert(deleted(runs, start, end), start, n)
    &&& forced_format(runs, start, end, policy) is Some ==> start + n <= u32::MAX
    &&& policy == ReplaceFormatPolicy::KeepDominantRun && start < end ==> covered(runs, start, end)
        <= end - start
}

/// Apply a "replace byte range `[byte_start..byte_end)` with `replacement_bytes` bytes"
/// mutation to a block's runs, choosing explicitly what the replacement wears.
///
/// [`ReplaceFormatPolicy::InheritPreceding`] is a delete followed by an insert;
/// every other policy re-splices exactly the replacement's span.
///
/// Returns `Err` rather than corrupting the block if the range is inverted.
pub fn shift_runs_for_replace(
    runs: &mut Vec<FormatRun>,
    byte_start: u32,
    byte_end: u32,
    replacement_bytes: u32,
    policy: ReplaceFormatPolicy,
) -> (res: Result<(), FormatRunError>)
    requires
        byte_start <= byte_end ==> can_replace(
            old(runs).deep_view(),
            byte_start as int,
            byte_end as int,
            replacement_bytes as int,
            policy,
        ),
    ensures
        match res {
            Ok(_) => {
                &&& byte_start <= byte_end
                &&& final(runs).deep_view() == replaced(
                    old(runs).deep_view(),
                    byte_start as int,
                    byte_end as int,
                    replacement_bytes as int,
                    policy,
                )
            },
            Err(e) => {
                &&& byte_end < byte_start
                &&& e.deep_view() == (RunErrorModel::ReversedRange {
                    start: byte_start as int,
                    end: byte_end as int,
                })
                &&& *final(runs) == *old(runs)
            },
        },
{
    if byte_end < byte_start {
        return Err(FormatRunError::ReversedRange { start: byte_start, end: byte_end });
    }
    let ghost all = runs.deep_view();
    // What the replacement wears is decided from the runs as they stand BEFORE
    // the edit: afterwards the runs under the range are gone.
    let forced: Option<Option<CharacterFormat>> = match policy {
        ReplaceFormatPolicy::InheritPreceding => None,
        ReplaceFormatPolicy::PreserveNothing => Some(None),
        ReplaceFormatPolicy::PreserveIfFullyCovered => {
            match covering_format(runs, byte_start, byte_end) {
                Some(format) => Some(Some(format)),
                None => None,
            }
        },
        ReplaceFormatPolicy::KeepDominantRun => {
            if byte_end > byte_start {
                Some(dominant_format(runs, byte_start, byte_end))
            } else {
                None
            }
        },
    };
    assert(forced.deep_view() == forced_format(all, byte_start as int, byte_end as int, policy));
    shift_runs_for_delete(runs, byte_start, byte_end);
    shift_runs_for_insert(runs, byte_start, replacement_bytes);
    if let Some(format) = forced {
        if replacement_bytes > 0 {
            let end: u32 = byte_start + replacement_bytes;
            let replacement: Vec<FormatRun> = match format {
                Some(format) => vec![FormatRun { byte_start, byte_end: end, format }],
                None => Vec::new(),
            };
            proof {
                assert(replacement.deep_view() =~= dressing(
                    byte_start as int,
                    replacement_bytes as int,
                    format.deep_view(),
                ));
                assert(fits(replacement.deep_view(), byte_start as int, end as int));
            }
            return try_splice_range(runs, byte_start..end, replacement);
        }
    }
    Ok(())
}

/// The halves of the runs at a byte, the right one counted from zero.
pub open spec fn split_runs(runs: Seq<RunModel>, at: int) -> (Seq<RunModel>, Seq<RunModel>) {
    (
        before(runs, at),
        right_of(runs, at).map_values(
            |run: RunModel| RunModel { start: run.start - at, end: run.end - at, ..run },
        ),
    )
}

/// The parts of the runs that end past a byte, the one across it clipped.
pub open spec fn right_of(runs: Seq<RunModel>, at: int) -> Seq<RunModel>
    decreases runs.len(),
{
    if runs.len() == 0 {
        runs
    } else {
        let kept = right_of(runs.drop_last(), at);
        let run = runs.last();
        if run.end <= at {
            kept
        } else if run.start >= at {
            kept.push(run)
        } else {
            kept.push(RunModel { start: at, ..run })
        }
    }
}

/// Split a block's format runs at `byte_offset`. The returned right-hand
/// vector has its run offsets re-based so they start at byte 0 of the
/// new (right) block. Straddling runs are split with their `format`
/// cloned to both halves.
pub fn split_runs_at(runs: &[FormatRun], byte_offset: u32) -> (halves: (
    Vec<FormatRun>,
    Vec<FormatRun>,
))
    ensures
        halves.0.deep_view() == split_runs(runs.deep_view(), byte_offset as int).0,
        halves.1.deep_view() == split_runs(runs.deep_view(), byte_offset as int).1,
{
    let ghost all = runs.deep_view();
    let ghost at = byte_offset as int;
    let mut left: Vec<FormatRun> = Vec::new();
    let mut right: Vec<FormatRun> = Vec::new();
    assert(right.deep_view() =~= split_runs(all.take(0), at).1);
    for i in 0..runs.len()
        invariant
            all == runs.deep_view(),
            at == byte_offset,
            left.deep_view() == split_runs(all.take(i as int), at).0,
            right.deep_view() == split_runs(all.take(i as int), at).1,
    {
        let run = &runs[i];
        let ghost shifted = split_runs(all.take(i as int), at).1;
        proof {
            assert(all.take(i + 1).drop_last() =~= all.take(i as int));
        }
        if run.byte_end <= byte_offset {
            left.push(run.clone());
            assert(shifted =~= split_runs(all.take(i + 1), at).1);
        } else if run.byte_start >= byte_offset {
            right.push(
                FormatRun {
                    byte_start: run.byte_start - byte_offset,
                    byte_end: run.byte_end - byte_offset,
                    format: run.format.clone(),
                },
            );
            assert(right.deep_view() =~= split_runs(all.take(i + 1), at).1);
        } else {
            left.push(
                FormatRun {
                    byte_start: run.byte_start,
                    byte_end: byte_offset,
                    format: run.format.clone(),
                },
            );
            right.push(
                FormatRun {
                    byte_start: 0,
                    byte_end: run.byte_end - byte_offset,
                    format: run.format.clone(),
                },
            );
            assert(right.deep_view() =~= split_runs(all.take(i + 1), at).1);
        }
    }
    proof {
        assert(all.take(all.len() as int) =~= all);
    }
    (left, right)
}

} // verus!
