//! What errors say, and which of several is told, stated over what is wrong.
use vstd::prelude::*;

use crate::chars::{digits_of, signed_digits};
use crate::document_editing::edit_error::{reason, EditError};
use crate::entities::{CharVerticalAlignment, EntityId, UnderlineStyle};
use crate::format_runs::{
    empty_run_error, neighbour_error, overlap_error, replacement_error, run_error, splice_error,
    FormatModel, RunErrorModel, RunModel,
};
use crate::run_messages::{
    debug_text, run_error_text, shown_alignment, shown_flag, shown_format, shown_list,
    shown_number, shown_items, shown_run, shown_text, shown_underline,
};

verus! {

// ─── Which error ─────────────────────────────────────────────────────

/// Whether the runs before one are not empty.
pub open spec fn full_before(runs: Seq<RunModel>, at: int) -> bool {
    forall|i: int| 0 <= i < at ==> (#[trigger] runs[i]).start < runs[i].end
}

/// Whether the runs before one neither overlap nor could be merged.
pub open spec fn apart_before(runs: Seq<RunModel>, at: int) -> bool {
    forall|i: int|
        0 < i < at ==> runs[i - 1].end <= (#[trigger] runs[i]).start && !(runs[i - 1].end
            == runs[i].start && runs[i - 1].format == runs[i].format)
}

proof fn empty_run_is(runs: Seq<RunModel>, from: int, at: int)
    requires
        0 <= from <= at <= runs.len(),
        full_before(runs, at),
        at < runs.len() ==> runs[at].start >= runs[at].end,
    ensures
        at < runs.len() ==> empty_run_error(runs, from) == Some(
            RunErrorModel::EmptyRun { start: runs[at].start, end: runs[at].end },
        ),
        at == runs.len() ==> empty_run_error(runs, from) is None,
    decreases at - from,
{
    if from < at {
        assert(runs[from].start < runs[from].end);
        empty_run_is(runs, from + 1, at);
    }
}

proof fn neighbours_are(runs: Seq<RunModel>, from: int, at: int)
    requires
        1 <= from <= at,
        at <= runs.len() || runs.len() == 0,
        apart_before(runs, at),
    ensures
        at < runs.len() && runs[at - 1].end > runs[at].start ==> neighbour_error(runs, from)
            == Some(
            RunErrorModel::RunsOverlap { index: at - 1, left: runs[at - 1], right: runs[at] },
        ),
        at < runs.len() && runs[at - 1].end == runs[at].start && runs[at - 1].format
            == runs[at].format ==> neighbour_error(runs, from) == Some(
            RunErrorModel::RunsNotCoalesced { index: at - 1 },
        ),
        at >= runs.len() ==> neighbour_error(runs, from) is None,
    decreases at - from,
{
    if from < at && from < runs.len() {
        assert(runs[from - 1].end <= runs[from].start);
        neighbours_are(runs, from + 1, at);
    }
}

/// The first empty run is told before anything else.
pub proof fn first_empty_run_is_told(runs: Seq<RunModel>, text_len: int, at: int)
    requires
        0 <= at < runs.len(),
        full_before(runs, at),
        runs[at].start >= runs[at].end,
    ensures
        run_error(runs, text_len) == Some(
            RunErrorModel::EmptyRun { start: runs[at].start, end: runs[at].end },
        ),
{
    empty_run_is(runs, 0, at);
}

/// Where no run is empty, the first two neighbours that overlap, or that could be merged,
/// are told by the index of the one on the left.
pub proof fn first_bad_neighbours_are_told(runs: Seq<RunModel>, text_len: int, at: int)
    requires
        0 < at < runs.len(),
        full_before(runs, runs.len() as int),
        apart_before(runs, at),
    ensures
        runs[at - 1].end > runs[at].start ==> run_error(runs, text_len) == Some(
            RunErrorModel::RunsOverlap { index: at - 1, left: runs[at - 1], right: runs[at] },
        ),
        runs[at - 1].end == runs[at].start && runs[at - 1].format == runs[at].format ==> run_error(
            runs,
            text_len,
        ) == Some(RunErrorModel::RunsNotCoalesced { index: at - 1 }),
{
    empty_run_is(runs, 0, runs.len() as int);
    neighbours_are(runs, 1, at);
}

/// Where the runs are in order and merged, the last of them is told where it ends past the
/// text, and nothing where it does not.
pub proof fn a_run_past_the_end_is_told(runs: Seq<RunModel>, text_len: int)
    requires
        full_before(runs, runs.len() as int),
        apart_before(runs, runs.len() as int),
    ensures
        runs.len() > 0 && runs.last().end > text_len ==> run_error(runs, text_len) == Some(
            RunErrorModel::RunPastEndOfBlock {
                start: runs.last().start,
                end: runs.last().end,
                text_len,
            },
        ),
        runs.len() == 0 || runs.last().end <= text_len ==> run_error(runs, text_len) is None,
{
    empty_run_is(runs, 0, runs.len() as int);
    if runs.len() > 0 {
        neighbours_are(runs, 1, runs.len() as int);
    }
}

/// Whether the runs before one are not empty and lie within a range.
pub open spec fn within_before(runs: Seq<RunModel>, start: int, end: int, at: int) -> bool {
    forall|i: int|
        0 <= i < at ==> start <= (#[trigger] runs[i]).start && runs[i].start < runs[i].end
            && runs[i].end <= end
}

proof fn replacement_is(runs: Seq<RunModel>, start: int, end: int, from: int, at: int)
    requires
        0 <= from <= at <= runs.len(),
        within_before(runs, start, end, at),
    ensures
        at < runs.len() && runs[at].start >= runs[at].end ==> replacement_error(
            runs,
            start,
            end,
            from,
        ) == Some(RunErrorModel::EmptyRun { start: runs[at].start, end: runs[at].end }),
        at < runs.len() && runs[at].start < runs[at].end && (runs[at].start < start || runs[at].end
            > end) ==> replacement_error(runs, start, end, from) == Some(
            RunErrorModel::ReplacementOutsideRange {
                run_start: runs[at].start,
                run_end: runs[at].end,
                range_start: start,
                range_end: end,
            },
        ),
        at == runs.len() ==> replacement_error(runs, start, end, from) is None,
    decreases at - from,
{
    if from < at {
        assert(start <= runs[from].start && runs[from].start < runs[from].end);
        replacement_is(runs, start, end, from + 1, at);
    }
}

proof fn overlap_is(runs: Seq<RunModel>, from: int, at: int)
    requires
        1 <= from <= at < runs.len(),
        forall|i: int| 0 < i < at ==> runs[i - 1].end <= (#[trigger] runs[i]).start,
        runs[at - 1].end > runs[at].start,
    ensures
        overlap_error(runs, from) == Some(
            RunErrorModel::RunsOverlap { index: at - 1, left: runs[at - 1], right: runs[at] },
        ),
    decreases at - from,
{
    if from < at {
        assert(runs[from - 1].end <= runs[from].start);
        overlap_is(runs, from + 1, at);
    }
}

/// A splice is refused for its range before its runs, for the first run that is empty or
/// leaves the range before two that overlap.
pub proof fn first_misfit_is_told(start: int, end: int, runs: Seq<RunModel>, at: int)
    ensures
        start > end ==> splice_error(start, end, runs) == Some(
            RunErrorModel::ReversedRange { start, end },
        ),
        start <= end && 0 <= at < runs.len() && within_before(runs, start, end, at)
            && runs[at].start >= runs[at].end ==> splice_error(start, end, runs) == Some(
            RunErrorModel::EmptyRun { start: runs[at].start, end: runs[at].end },
        ),
        start <= end && 0 <= at < runs.len() && within_before(runs, start, end, at)
            && runs[at].start < runs[at].end && (runs[at].start < start || runs[at].end > end)
            ==> splice_error(start, end, runs) == Some(
            RunErrorModel::ReplacementOutsideRange {
                run_start: runs[at].start,
                run_end: runs[at].end,
                range_start: start,
                range_end: end,
            },
        ),
        start <= end && 0 < at < runs.len() && within_before(runs, start, end, runs.len() as int)
            && (forall|i: int| 0 < i < at ==> runs[i - 1].end <= (#[trigger] runs[i]).start)
            && runs[at - 1].end > runs[at].start ==> splice_error(start, end, runs) == Some(
            RunErrorModel::RunsOverlap { index: at - 1, left: runs[at - 1], right: runs[at] },
        ),
{
    if start <= end {
        if 0 <= at < runs.len() && within_before(runs, start, end, at) {
            replacement_is(runs, start, end, 0, at);
        }
        if 0 < at < runs.len() && within_before(runs, start, end, runs.len() as int) {
            replacement_is(runs, start, end, 0, runs.len() as int);
            if (forall|i: int| 0 < i < at ==> runs[i - 1].end <= (#[trigger] runs[i]).start)
                && runs[at - 1].end > runs[at].start {
                overlap_is(runs, 1, at);
            }
        }
    }
}

// ─── What an error says ──────────────────────────────────────────────

/// What is said of runs names where they start and end, in that order, and by index those
/// that are wrong together.
pub proof fn run_errors_say_where(
    start: int,
    end: int,
    other_start: int,
    other_end: int,
    index: int,
    left: RunModel,
    right: RunModel,
)
    ensures
        run_error_text(RunErrorModel::ReversedRange { start, end }) == "byte range "@ + digits_of(
            start as nat,
        ) + ".."@ + digits_of(end as nat) + " is reversed"@,
        run_error_text(
            RunErrorModel::ReplacementOutsideRange {
                run_start: start,
                run_end: end,
                range_start: other_start,
                range_end: other_end,
            },
        ) == "replacement run "@ + digits_of(start as nat) + ".."@ + digits_of(end as nat)
            + " falls outside the spliced range "@ + digits_of(other_start as nat) + ".."@
            + digits_of(other_end as nat),
        run_error_text(RunErrorModel::EmptyRun { start, end }) == "run "@ + digits_of(start as nat)
            + ".."@ + digits_of(end as nat) + " is empty or reversed"@,
        run_error_text(RunErrorModel::RunsOverlap { index, left, right })
            == "runs overlap or are out of order at index "@ + digits_of(index as nat) + ": "@
            + shown_run(left) + " then "@ + shown_run(right),
        run_error_text(RunErrorModel::RunsNotCoalesced { index })
            == "adjacent runs with identical formatting were left uncoalesced at index "@
            + digits_of(index as nat),
        run_error_text(RunErrorModel::RunPastEndOfBlock { start, end, text_len: other_end })
            == "run "@ + digits_of(start as nat) + ".."@ + digits_of(end as nat)
            + " runs past the end of the block's "@ + digits_of(other_end as nat) + " bytes"@,
        shown_run(left) == "FormatRun { byte_start: "@ + digits_of(left.start as nat)
            + ", byte_end: "@ + digits_of(left.end as nat) + ", format: "@ + shown_format(
            left.format,
        ) + " }"@,
{
}

/// A format is shown with all its fields by name, in the order of their declaration.
pub proof fn formats_are_shown_by_field(format: FormatModel)
    ensures
        shown_format(format) == "CharacterFormat { font_family: "@ + shown_text(format.font_family)
            + ", font_point_size: "@ + shown_number(format.font_point_size) + ", font_weight: "@
            + shown_number(format.font_weight) + ", font_bold: "@ + shown_flag(format.font_bold)
            + ", font_italic: "@ + shown_flag(format.font_italic) + ", font_underline: "@
            + shown_flag(format.font_underline) + ", font_overline: "@ + shown_flag(
            format.font_overline,
        ) + ", font_strikeout: "@ + shown_flag(format.font_strikeout) + ", letter_spacing: "@
            + shown_number(format.letter_spacing) + ", word_spacing: "@ + shown_number(
            format.word_spacing,
        ) + ", anchor_href: "@ + shown_text(format.anchor_href) + ", anchor_names: "@ + shown_list(
            format.anchor_names,
        ) + ", is_anchor: "@ + shown_flag(format.is_anchor) + ", tooltip: "@ + shown_text(
            format.tooltip,
        ) + ", underline_style: "@ + shown_underline(format.underline_style)
            + ", vertical_alignment: "@ + shown_alignment(format.vertical_alignment) + " }"@,
{
}

/// Something that is there is shown in `Some(..)`, and something that is missing as `None`.
pub proof fn options_are_shown(text: Seq<char>, n: i64)
    ensures
        shown_text(None) == "None"@,
        shown_text(Some(text)) == "Some("@ + debug_text(text) + ")"@,
        shown_number(None) == "None"@,
        shown_number(Some(n)) == "Some("@ + signed_digits(n as int) + ")"@,
        shown_flag(None) == "None"@,
        shown_flag(Some(true)) == "Some("@ + "true"@ + ")"@,
        shown_flag(Some(false)) == "Some("@ + "false"@ + ")"@,
        shown_underline(None) == "None"@,
        shown_alignment(None) == "None"@,
        shown_underline(Some(UnderlineStyle::NoUnderline)) == "Some("@ + "NoUnderline"@ + ")"@,
        shown_underline(Some(UnderlineStyle::SingleUnderline)) == "Some("@ + "SingleUnderline"@ + ")"@,
        shown_underline(Some(UnderlineStyle::DashUnderline)) == "Some("@ + "DashUnderline"@ + ")"@,
        shown_underline(Some(UnderlineStyle::DotLine)) == "Some("@ + "DotLine"@ + ")"@,
        shown_underline(Some(UnderlineStyle::DashDotLine)) == "Some("@ + "DashDotLine"@ + ")"@,
        shown_underline(Some(UnderlineStyle::DashDotDotLine)) == "Some("@ + "DashDotDotLine"@ + ")"@,
        shown_underline(Some(UnderlineStyle::WaveUnderline)) == "Some("@ + "WaveUnderline"@ + ")"@,
        shown_underline(Some(UnderlineStyle::SpellCheckUnderline)) == "Some("@ + "SpellCheckUnderline"@ + ")"@,
        shown_alignment(Some(CharVerticalAlignment::Normal)) == "Some("@ + "Normal"@ + ")"@,
        shown_alignment(Some(CharVerticalAlignment::SuperScript)) == "Some("@ + "SuperScript"@ + ")"@,
        shown_alignment(Some(CharVerticalAlignment::SubScript)) == "Some("@ + "SubScript"@ + ")"@,
        shown_alignment(Some(CharVerticalAlignment::Middle)) == "Some("@ + "Middle"@ + ")"@,
        shown_alignment(Some(CharVerticalAlignment::Bottom)) == "Some("@ + "Bottom"@ + ")"@,
        shown_alignment(Some(CharVerticalAlignment::Top)) == "Some("@ + "Top"@ + ")"@,
        shown_alignment(Some(CharVerticalAlignment::Baseline)) == "Some("@ + "Baseline"@ + ")"@,
{
}

proof fn items_are_shown(texts: Seq<Seq<char>>, text: Seq<char>, n: int)
    requires
        0 <= n <= texts.len(),
    ensures
        shown_items(texts.push(text), n) == shown_items(texts, n),
    decreases n,
{
    if n > 1 {
        items_are_shown(texts, text, n - 1);
        assert(texts.push(text)[n - 1] == texts[n - 1]);
    } else if n == 1 {
        assert(texts.push(text)[0] == texts[0]);
    }
}

/// A list is shown in square brackets, with a comma and a space between each two items.
pub proof fn lists_are_shown(texts: Seq<Seq<char>>, text: Seq<char>)
    ensures
        shown_list(Seq::empty()) == "["@ + "]"@,
        shown_list(seq![text]) == "["@ + debug_text(text) + "]"@,
        texts.len() > 0 ==> shown_list(texts) == shown_items(texts, texts.len() as int) + "]"@
            && shown_list(texts.push(text)) == shown_items(texts, texts.len() as int) + ", "@
            + debug_text(text) + "]"@,
{
    items_are_shown(texts, text, texts.len() as int);
    assert(texts.push(text)[texts.len() as int] == text);
}

/// Each reason why an edit is refused is told in words of its own, with the numbers it is
/// about.
pub proof fn refusals_say_why(id: EntityId, width: i64, height: i64)
    ensures
        reason(EditError::NamedFrameNotFound(id)) == "Frame "@ + digits_of(id as nat)
            + " not found"@,
        reason(EditError::NamedParentNotFound(id)) == "Parent frame "@ + digits_of(id as nat)
            + " not found"@,
        reason(EditError::BadDimensions(width, height))
            == "Image dimensions must be positive (got "@ + signed_digits(width as int) + "x"@
            + signed_digits(height as int) + ")"@,
        reason(EditError::BadQuality(width)) == "Image quality must be within 1..=100 (got "@
            + signed_digits(width as int) + ")"@,
        reason(EditError::RootNotFound) == "Root entity not found"@,
        reason(EditError::RootHasNoDocument) == "Root has no document"@,
        reason(EditError::DocumentNotFound) == "Document not found"@,
        reason(EditError::DocumentHasNoFrames) == "Document has no frames"@,
        reason(EditError::FrameNotFound) == "Frame not found"@,
        reason(EditError::StartBlockNotFound) == "start_block_id not found in any frame"@,
        reason(EditError::EndBlockNotFound) == "end_block_id not found in any frame"@,
        reason(EditError::DifferentFrames) == "wrap_blocks_in_frame: start_block_id and end_block_id must live in the same frame"@,
        reason(EditError::OwningFrameNotFound) == "Owning frame not found"@,
        reason(EditError::StartBlockNotInFrame) == "start_block_id not in owning frame's child_order"@,
        reason(EditError::EndBlockNotInFrame) == "end_block_id not in owning frame's child_order"@,
        reason(EditError::EndBeforeStart) == "wrap_blocks_in_frame: end_block must not appear before start_block in document order"@,
        reason(EditError::StartBlockDisappeared) == "start block disappeared mid-op"@,
        reason(EditError::TopLevelFrame) == "Cannot unwrap a top-level frame (no parent)"@,
        reason(EditError::TableAnchorFrame) == "Cannot unwrap a table-anchor frame"@,
        reason(EditError::EntryNotInParent) == "Sub-frame entry not present in parent's child_order"@,
        reason(EditError::BlockNotFound) == "block_id not found in any frame's child_order"@,
        reason(EditError::BlockInRootFrame) == "Cannot unwrap a block from the root frame"@,
        reason(EditError::ParentFrameNotFound) == "Parent frame not found"@,
        reason(EditError::BlockInTableFrame) == "Cannot unwrap a block from a table-anchor frame"@,
        reason(EditError::BlockNotInFrame) == "block_id not in owning frame's child_order"@,
        reason(EditError::SourceNotInParent) == "Source frame entry not present in parent's child_order"@,
        reason(EditError::SelectionNotSupported) == "Selection replacement is not supported for image insertion"@,
        reason(EditError::NoBlocks) == "Document has no blocks"@,
        reason(EditError::NothingToUndo) == "No snapshot available for undo"@,
        reason(EditError::NothingToRedo) == "No DTO available for redo"@,
{
}

} // verus!
