//! What the edits of [`crate::format_runs`] mean for the format each byte wears.
use vstd::prelude::*;

use crate::format_runs::{
    after, before, can_replace, captured, clipped, coalesced, continues, covered, covering, covers,
    deleted, dominant, dressing, first_covering, fits, forced_format, fully_merged, in_order,
    insert_into_run, inserted, overlap, pull_run, pulled, replaced, right_of, split_runs, spliced,
    well_formed, widest, FormatModel, ReplaceFormatPolicy, RunModel,
};

verus! {

/// The format that a byte wears, if any run covers it.
pub open spec fn format_at(runs: Seq<RunModel>, byte: int) -> Option<FormatModel>
    decreases runs.len(),
{
    if runs.len() == 0 {
        None
    } else if runs.last().start <= byte < runs.last().end {
        Some(runs.last().format)
    } else {
        format_at(runs.drop_last(), byte)
    }
}

/// Whether the runs are in order and fully merged.
pub open spec fn canonical(runs: Seq<RunModel>) -> bool {
    in_order(runs) && fully_merged(runs)
}

proof fn in_order_prefix(runs: Seq<RunModel>)
    requires
        in_order(runs),
        runs.len() > 0,
    ensures
        in_order(runs.drop_last()),
        runs.last().start < runs.last().end,
        forall|i: int| 0 <= i < runs.len() - 1 ==> (#[trigger] runs[i]).end <= runs.last().start,
{
    let rest = runs.drop_last();
    assert forall|i: int, j: int| 0 <= i < j < rest.len() implies (#[trigger] rest[i]).end <= (
    #[trigger] rest[j]).start by {
        assert(runs[i].end <= runs[j].start);
    }
    assert(runs.last() == runs[runs.len() - 1]);
}

proof fn in_order_push(runs: Seq<RunModel>, run: RunModel)
    requires
        in_order(runs),
        run.start < run.end,
        runs.len() > 0 ==> runs.last().end <= run.start,
    ensures
        in_order(runs.push(run)),
{
    let all = runs.push(run);
    assert forall|i: int, j: int| 0 <= i < j < all.len() implies (#[trigger] all[i]).end <= (
    #[trigger] all[j]).start by {
        if j < runs.len() {
            assert(runs[i].end <= runs[j].start);
        } else {
            assert(runs.last() == runs[runs.len() - 1]);
            if i < runs.len() - 1 {
                assert(runs[i].end <= runs[runs.len() - 1].start);
            }
            assert(runs[runs.len() - 1].start < runs[runs.len() - 1].end);
        }
    }
}

/// A byte wears a format exactly where a run holds it.
pub proof fn format_at_covers(runs: Seq<RunModel>, byte: int, i: int)
    requires
        in_order(runs),
        0 <= i < runs.len(),
        runs[i].start <= byte < runs[i].end,
    ensures
        format_at(runs, byte) == Some(runs[i].format),
    decreases runs.len(),
{
    in_order_prefix(runs);
    if i < runs.len() - 1 {
        assert(runs.drop_last()[i] == runs[i]);
        format_at_covers(runs.drop_last(), byte, i);
    }
}

/// Where a byte wears a format, some run holds it.
pub proof fn format_at_index(runs: Seq<RunModel>, byte: int) -> (i: int)
    requires
        format_at(runs, byte) is Some,
    ensures
        0 <= i < runs.len(),
        runs[i].start <= byte < runs[i].end,
        format_at(runs, byte) == Some(runs[i].format),
    decreases runs.len(),
{
    if runs.last().start <= byte < runs.last().end {
        runs.len() - 1
    } else {
        let i = format_at_index(runs.drop_last(), byte);
        assert(runs.drop_last()[i] == runs[i]);
        i
    }
}

/// No byte at or past the end of the last run wears a format.
pub proof fn format_at_past_end(runs: Seq<RunModel>, byte: int)
    requires
        in_order(runs),
        runs.len() > 0 ==> runs.last().end <= byte,
    ensures
        format_at(runs, byte) is None,
{
    if format_at(runs, byte) is Some {
        let i = format_at_index(runs, byte);
        in_order_prefix(runs);
        assert(runs.last() == runs[runs.len() - 1]);
    }
}

/// What a byte wears in two lists of runs, one after the other.
pub proof fn format_at_concat(a: Seq<RunModel>, b: Seq<RunModel>, byte: int)
    ensures
        format_at(a + b, byte) == match format_at(b, byte) {
            Some(format) => Some(format),
            None => format_at(a, byte),
        },
    decreases b.len(),
{
    if b.len() == 0 {
        assert(a + b =~= a);
    } else {
        assert((a + b).drop_last() =~= a + b.drop_last());
        assert((a + b).last() == b.last());
        format_at_concat(a, b.drop_last(), byte);
    }
}

/// Two lists that are in order, the first of which ends before the second
/// begins, are in order one after the other.
proof fn in_order_concat(a: Seq<RunModel>, b: Seq<RunModel>, at: int)
    requires
        in_order(a),
        in_order(b),
        forall|i: int| 0 <= i < a.len() ==> (#[trigger] a[i]).end <= at,
        forall|i: int| 0 <= i < b.len() ==> at <= (#[trigger] b[i]).start,
    ensures
        in_order(a + b),
{
    let all = a + b;
    assert forall|i: int, j: int| 0 <= i < j < all.len() implies (#[trigger] all[i]).end <= (
    #[trigger] all[j]).start by {
        if j < a.len() {
            assert(a[i].end <= a[j].start);
        } else if i >= a.len() {
            assert(b[i - a.len()].end <= b[j - a.len()].start);
        } else {
            assert(a[i].end <= at);
            assert(at <= b[j - a.len()].start);
        }
    }
    assert forall|i: int| 0 <= i < all.len() implies (#[trigger] all[i]).start < all[i].end by {
        if i < a.len() {
            assert(a[i].start < a[i].end);
        } else {
            assert(b[i - a.len()].start < b[i - a.len()].end);
        }
    }
}

proof fn coalesced_shape(runs: Seq<RunModel>)
    requires
        in_order(runs),
    ensures
        canonical(coalesced(runs)),
        runs.len() > 0 ==> coalesced(runs).len() > 0 && coalesced(runs).last().end
            == runs.last().end,
        runs.len() == 0 ==> coalesced(runs).len() == 0,
    decreases runs.len(),
{
    if runs.len() > 0 {
        in_order_prefix(runs);
        coalesced_shape(runs.drop_last());
        let kept = coalesced(runs.drop_last());
        let run = runs.last();
        if kept.len() > 0 {
            assert(runs.drop_last().len() > 0);
            assert(runs.drop_last().last() == runs[runs.len() - 2]);
            assert(kept.last().end <= run.start);
            in_order_prefix(kept);
            if continues(kept.last(), run) {
                let merged = RunModel { end: run.end, ..kept.last() };
                let rest = kept.drop_last();
                if rest.len() > 0 {
                    assert(rest.last() == kept[kept.len() - 2]);
                }
                in_order_push(rest, merged);
                assert(coalesced(runs) == rest.push(merged));
                assert forall|i: int| 0 < i < coalesced(runs).len() implies !continues(
                    coalesced(runs)[i - 1],
                    #[trigger] coalesced(runs)[i],
                ) by {
                    assert(!continues(kept[i - 1], kept[i]));
                }
            } else {
                in_order_push(kept, run);
                assert(coalesced(runs) == kept.push(run));
                assert forall|i: int| 0 < i < coalesced(runs).len() implies !continues(
                    coalesced(runs)[i - 1],
                    #[trigger] coalesced(runs)[i],
                ) by {
                    if i < kept.len() {
                        assert(!continues(kept[i - 1], kept[i]));
                    }
                }
            }
        } else {
            in_order_push(kept, run);
        }
    }
}

/// Merging runs changes the format of no byte.
pub proof fn coalesce_keeps_formats(runs: Seq<RunModel>, byte: int)
    requires
        in_order(runs),
    ensures
        format_at(coalesced(runs), byte) == format_at(runs, byte),
    decreases runs.len(),
{
    if runs.len() > 0 {
        in_order_prefix(runs);
        coalesce_keeps_formats(runs.drop_last(), byte);
        coalesced_shape(runs.drop_last());
        let kept = coalesced(runs.drop_last());
        let run = runs.last();
        if kept.len() > 0 && continues(kept.last(), run) {
            in_order_prefix(kept);
            let merged = RunModel { end: run.end, ..kept.last() };
            assert(coalesced(runs) == kept.drop_last().push(merged));
            assert(coalesced(runs).drop_last() =~= kept.drop_last());
            assert(coalesced(runs).last() == merged);
        } else {
            assert(coalesced(runs) == kept.push(run));
            assert(coalesced(runs).drop_last() =~= kept);
        }
    }
}

/// Merging runs that are in order leaves them in order and fully merged.
pub proof fn coalesce_is_canonical(runs: Seq<RunModel>)
    requires
        in_order(runs),
    ensures
        canonical(coalesced(runs)),
{
    coalesced_shape(runs);
}

/// Merging runs that are in order leaves the end of the last where it is, and
/// begins and ends no run where none began or ended.
pub proof fn coalesce_keeps_ends(runs: Seq<RunModel>)
    requires
        in_order(runs),
    ensures
        runs.len() > 0 ==> coalesced(runs).len() > 0 && coalesced(runs).last().end
            == runs.last().end,
        runs.len() == 0 ==> coalesced(runs).len() == 0,
        forall|i: int|
            0 <= i < coalesced(runs).len() ==> exists|j: int, k: int|
                0 <= j < runs.len() && 0 <= k < runs.len() && (#[trigger] coalesced(runs)[i]).start
                    == (#[trigger] runs[j]).start && coalesced(runs)[i].end == (
                #[trigger] runs[k]).end,
    decreases runs.len(),
{
    coalesced_shape(runs);
    if runs.len() > 0 {
        in_order_prefix(runs);
        let rest = runs.drop_last();
        coalesce_keeps_ends(rest);
        let kept = coalesced(rest);
        let all = coalesced(runs);
        let n = runs.len() - 1;
        assert forall|i: int| 0 <= i < all.len() implies exists|j: int, k: int|
            0 <= j < runs.len() && 0 <= k < runs.len() && (#[trigger] all[i]).start == (
            #[trigger] runs[j]).start && all[i].end == (#[trigger] runs[k]).end by {
            if i < kept.len() {
                assert(kept[i].start == kept[i].start);
                let (j, k) = choose|j: int, k: int|
                    0 <= j < rest.len() && 0 <= k < rest.len() && kept[i].start == (
                    #[trigger] rest[j]).start && kept[i].end == (#[trigger] rest[k]).end;
                assert(rest[j] == runs[j] && rest[k] == runs[k]);
                if i == kept.len() - 1 && continues(kept.last(), runs.last()) {
                    assert(all[i].start == runs[j].start && all[i].end == runs[n].end);
                } else {
                    assert(all[i] == kept[i]);
                    assert(all[i].start == runs[j].start && all[i].end == runs[k].end);
                }
            } else {
                assert(all[i] == runs[n]);
                assert(all[i].start == runs[n].start && all[i].end == runs[n].end);
            }
        }
    }
}

/// Fully merged runs in order are determined by the format of each byte.
pub proof fn canonical_runs_are_unique(a: Seq<RunModel>, b: Seq<RunModel>)
    requires
        canonical(a),
        canonical(b),
        forall|byte: int| #[trigger] format_at(a, byte) == format_at(b, byte),
    ensures
        a == b,
    decreases a.len(),
{
    if a.len() == 0 {
        if b.len() > 0 {
            in_order_prefix(b);
            assert(format_at(a, b.last().start) == format_at(b, b.last().start));
        }
        assert(a =~= b);
    } else if b.len() == 0 {
        in_order_prefix(a);
        assert(format_at(a, a.last().start) == format_at(b, a.last().start));
    } else {
        in_order_prefix(a);
        in_order_prefix(b);
        let x = a.last();
        let y = b.last();
        if x.end > y.end {
            format_at_past_end(b, x.end - 1);
            assert(format_at(a, x.end - 1) == format_at(b, x.end - 1));
        }
        if x.end < y.end {
            format_at_past_end(a, y.end - 1);
            assert(format_at(a, y.end - 1) == format_at(b, y.end - 1));
        }
        assert(format_at(a, x.end - 1) == format_at(b, x.end - 1));
        assert(x.format == y.format);
        assert forall|byte: int| #[trigger] format_at(b, byte) == format_at(a, byte) by {
            assert(format_at(a, byte) == format_at(b, byte));
        }
        last_start_is_least(a, b);
        last_start_is_least(b, a);
        let p = a.drop_last();
        let q = b.drop_last();
        assert forall|byte: int| #[trigger] format_at(p, byte) == format_at(q, byte) by {
            assert(format_at(a, byte) == format_at(b, byte));
            if x.start <= byte {
                if p.len() > 0 {
                    assert(p.last() == a[a.len() - 2]);
                }
                if q.len() > 0 {
                    assert(q.last() == b[b.len() - 2]);
                }
                format_at_past_end(p, byte);
                format_at_past_end(q, byte);
            }
        }
        canonical_prefix(a);
        canonical_prefix(b);
        canonical_runs_are_unique(p, q);
        assert(a =~= p.push(x));
        assert(b =~= q.push(y));
    }
}

proof fn canonical_prefix(runs: Seq<RunModel>)
    requires
        canonical(runs),
        runs.len() > 0,
    ensures
        canonical(runs.drop_last()),
{
    in_order_prefix(runs);
    let rest = runs.drop_last();
    assert forall|i: int| 0 < i < rest.len() implies !continues(rest[i - 1], #[trigger] rest[i]) by {
        assert(!continues(runs[i - 1], runs[i]));
    }
}

proof fn last_start_is_least(a: Seq<RunModel>, b: Seq<RunModel>)
    requires
        canonical(a),
        canonical(b),
        a.len() > 0,
        b.len() > 0,
        a.last().end == b.last().end,
        a.last().format == b.last().format,
        forall|byte: int| #[trigger] format_at(a, byte) == format_at(b, byte),
    ensures
        b.last().start <= a.last().start,
{
    in_order_prefix(a);
    in_order_prefix(b);
    if b.last().start <= a.last().start {
        return;
    }
    let byte = b.last().start - 1;
    assert(format_at(a, byte) == format_at(b, byte));
    format_at_covers(a, byte, a.len() - 1);
    let i = format_at_index(b, byte);
    if i < b.len() - 2 {
        assert(b[i].end <= b[b.len() - 2].start);
        assert(b[b.len() - 2].start < b[b.len() - 2].end);
        assert(b[b.len() - 2].end <= b[b.len() - 1].start);
    }
    assert(i == b.len() - 2);
    assert(b[i].end <= b[b.len() - 1].start);
    assert(!continues(b[b.len() - 2], b[b.len() - 1]));
}

/// Runs in order end within a text exactly when no byte past it is formatted.
pub proof fn ends_within(runs: Seq<RunModel>, text_len: int)
    requires
        in_order(runs),
        forall|byte: int| byte >= text_len ==> #[trigger] format_at(runs, byte) is None,
    ensures
        runs.len() > 0 ==> runs.last().end <= text_len,
{
    if runs.len() > 0 {
        in_order_prefix(runs);
        assert(format_at(runs, runs.last().end - 1) is Some);
    }
}

proof fn before_shape(runs: Seq<RunModel>, at: int)
    requires
        in_order(runs),
    ensures
        in_order(before(runs, at)),
        forall|i: int| 0 <= i < before(runs, at).len() ==> (#[trigger] before(runs, at)[i]).end <= at,
        runs.len() > 0 && before(runs, at).len() > 0 ==> before(runs, at).last().end
            <= runs.last().end,
    decreases runs.len(),
{
    if runs.len() > 0 {
        in_order_prefix(runs);
        before_shape(runs.drop_last(), at);
        let kept = before(runs.drop_last(), at);
        let run = runs.last();
        if kept.len() > 0 {
            before_len(runs.drop_last(), at);
            assert(runs.drop_last().last() == runs[runs.len() - 2]);
            assert(kept.last().end <= run.start);
        }
        if run.end <= at {
            in_order_push(kept, run);
        } else if run.start < at {
            in_order_push(kept, RunModel { end: at, ..run });
        }
    }
}

proof fn before_len(runs: Seq<RunModel>, at: int)
    ensures
        before(runs, at).len() <= runs.len(),
    decreases runs.len(),
{
    if runs.len() > 0 {
        before_len(runs.drop_last(), at);
    }
}

proof fn before_formats(runs: Seq<RunModel>, at: int, byte: int)
    requires
        in_order(runs),
    ensures
        format_at(before(runs, at), byte) == if byte < at {
            format_at(runs, byte)
        } else {
            None
        },
    decreases runs.len(),
{
    if runs.len() > 0 {
        in_order_prefix(runs);
        before_formats(runs.drop_last(), at, byte);
        let kept = before(runs.drop_last(), at);
        let run = runs.last();
        if run.end <= at {
            assert(before(runs, at).drop_last() =~= kept);
        } else if run.start < at {
            assert(before(runs, at).drop_last() =~= kept);
        }
    }
}

proof fn after_shape(runs: Seq<RunModel>, at: int)
    requires
        in_order(runs),
    ensures
        in_order(after(runs, at)),
        forall|i: int| 0 <= i < after(runs, at).len() ==> at <= (#[trigger] after(runs, at)[i]).start,
        after(runs, at).len() > 0 ==> runs.len() > 0 && after(runs, at).last().end
            <= runs.last().end,
    decreases runs.len(),
{
    if runs.len() > 0 {
        in_order_prefix(runs);
        after_shape(runs.drop_last(), at);
        let kept = after(runs.drop_last(), at);
        let run = runs.last();
        if kept.len() > 0 {
            assert(runs.drop_last().last() == runs[runs.len() - 2]);
            assert(kept.last().end <= run.start);
            assert(kept.last() == kept[kept.len() - 1]);
        }
        if run.start >= at {
            in_order_push(kept, run);
        } else if run.end > at {
            in_order_push(kept, RunModel { start: at, ..run });
        }
    }
}

proof fn after_formats(runs: Seq<RunModel>, at: int, byte: int)
    requires
        in_order(runs),
    ensures
        format_at(after(runs, at), byte) == if byte >= at {
            format_at(runs, byte)
        } else {
            None
        },
    decreases runs.len(),
{
    if runs.len() > 0 {
        in_order_prefix(runs);
        after_formats(runs.drop_last(), at, byte);
        let kept = after(runs.drop_last(), at);
        let run = runs.last();
        if run.start >= at {
            assert(after(runs, at).drop_last() =~= kept);
        } else if run.end > at {
            assert(after(runs, at).drop_last() =~= kept);
        }
    }
}

proof fn splice_parts_in_order(
    runs: Seq<RunModel>,
    start: int,
    end: int,
    replacement: Seq<RunModel>,
)
    requires
        in_order(runs),
        fits(replacement, start, end),
    ensures
        in_order(before(runs, start) + replacement + after(runs, end)),
{
    before_shape(runs, start);
    after_shape(runs, end);
    let left = before(runs, start);
    in_order_concat(left, replacement, start);
    let head = left + replacement;
    assert forall|i: int| 0 <= i < head.len() implies (#[trigger] head[i]).end <= end by {
        if i < left.len() {
            assert(left[i].end <= start);
        } else {
            assert(replacement[i - left.len()].end <= end);
        }
    }
    in_order_concat(head, after(runs, end), end);
}

/// A splice dresses the bytes of its range as the replacement says, and no
/// other byte otherwise than before.
pub proof fn splice_changes_only_its_range(
    runs: Seq<RunModel>,
    start: int,
    end: int,
    replacement: Seq<RunModel>,
    byte: int,
)
    requires
        in_order(runs),
        fits(replacement, start, end),
    ensures
        format_at(spliced(runs, start, end, replacement), byte) == if start <= byte < end {
            format_at(replacement, byte)
        } else {
            format_at(runs, byte)
        },
{
    splice_parts_in_order(runs, start, end, replacement);
    let left = before(runs, start);
    let right = after(runs, end);
    coalesce_keeps_formats(left + replacement + right, byte);
    format_at_concat(left + replacement, right, byte);
    format_at_concat(left, replacement, byte);
    before_formats(runs, start, byte);
    after_formats(runs, end, byte);
    if !(start <= byte < end) && format_at(replacement, byte) is Some {
        let i = format_at_index(replacement, byte);
    }
}

/// A splice within a block's text keeps its runs well formed.
pub proof fn splice_keeps_well_formed(
    runs: Seq<RunModel>,
    start: int,
    end: int,
    replacement: Seq<RunModel>,
    text_len: int,
)
    requires
        well_formed(runs, text_len),
        fits(replacement, start, end),
        end <= text_len,
    ensures
        well_formed(spliced(runs, start, end, replacement), text_len),
{
    splice_parts_in_order(runs, start, end, replacement);
    coalesced_shape(before(runs, start) + replacement + after(runs, end));
    let new = spliced(runs, start, end, replacement);
    assert forall|byte: int| byte >= text_len implies #[trigger] format_at(new, byte) is None by {
        splice_changes_only_its_range(runs, start, end, replacement, byte);
        format_at_past_end(runs, byte);
    }
    ends_within(new, text_len);
}

proof fn captured_shape(runs: Seq<RunModel>, start: int, end: int)
    requires
        in_order(runs),
    ensures
        in_order(captured(runs, start, end)),
        forall|i: int|
            0 <= i < captured(runs, start, end).len() ==> start <= (#[trigger] captured(
                runs,
                start,
                end,
            )[i]).start && captured(runs, start, end)[i].end <= end,
        captured(runs, start, end).len() > 0 ==> runs.len() > 0 && captured(
            runs,
            start,
            end,
        ).last().end <= runs.last().end,
    decreases runs.len(),
{
    if runs.len() > 0 {
        in_order_prefix(runs);
        captured_shape(runs.drop_last(), start, end);
        let kept = captured(runs.drop_last(), start, end);
        let run = clipped(runs.last(), start, end);
        if kept.len() > 0 {
            assert(runs.drop_last().last() == runs[runs.len() - 2]);
            assert(kept.last().end <= runs.last().start);
        }
        if run.start < run.end {
            in_order_push(kept, run);
        }
    }
}

/// Captured runs dress the bytes of the range as the runs do, and no others.
pub proof fn capture_keeps_formats(runs: Seq<RunModel>, start: int, end: int, byte: int)
    requires
        in_order(runs),
    ensures
        format_at(captured(runs, start, end), byte) == if start <= byte < end {
            format_at(runs, byte)
        } else {
            None
        },
    decreases runs.len(),
{
    if runs.len() > 0 {
        in_order_prefix(runs);
        capture_keeps_formats(runs.drop_last(), start, end, byte);
        let kept = captured(runs.drop_last(), start, end);
        let run = clipped(runs.last(), start, end);
        if !(runs.last().end <= start || runs.last().start >= end || run.start >= run.end) {
            assert(captured(runs, start, end).drop_last() =~= kept);
        }
    }
}

/// What is captured from a range can be spliced back into it.
pub proof fn captured_runs_fit(runs: Seq<RunModel>, start: int, end: int)
    requires
        in_order(runs),
        start <= end,
    ensures
        fits(captured(runs, start, end), start, end),
{
    captured_shape(runs, start, end);
}

/// Splicing back what was captured from a range before a splice undoes the splice.
pub proof fn splicing_back_the_capture_undoes_the_splice(
    runs: Seq<RunModel>,
    start: int,
    end: int,
    replacement: Seq<RunModel>,
)
    requires
        canonical(runs),
        fits(replacement, start, end),
    ensures
        spliced(
            spliced(runs, start, end, replacement),
            start,
            end,
            captured(runs, start, end),
        ) == runs,
{
    let edited = spliced(runs, start, end, replacement);
    let saved = captured(runs, start, end);
    captured_runs_fit(runs, start, end);
    splice_parts_in_order(runs, start, end, replacement);
    coalesced_shape(before(runs, start) + replacement + after(runs, end));
    splice_parts_in_order(edited, start, end, saved);
    coalesced_shape(before(edited, start) + saved + after(edited, end));
    let back = spliced(edited, start, end, saved);
    assert forall|byte: int| #[trigger] format_at(back, byte) == format_at(runs, byte) by {
        splice_changes_only_its_range(edited, start, end, saved, byte);
        splice_changes_only_its_range(runs, start, end, replacement, byte);
        capture_keeps_formats(runs, start, end, byte);
    }
    canonical_runs_are_unique(back, runs);
}

/// After an insertion each byte wears what it wore, and the inserted bytes wear
/// what the byte before them wears.
pub proof fn insert_extends_the_preceding_format(
    runs: Seq<RunModel>,
    at: int,
    n: int,
    byte: int,
)
    requires
        in_order(runs),
        0 <= n,
    ensures
        format_at(inserted(runs, at, n), byte) == if byte < at {
            format_at(runs, byte)
        } else if byte < at + n {
            format_at(runs, at - 1)
        } else {
            format_at(runs, byte - n)
        },
    decreases runs.len(),
{
    if runs.len() > 0 {
        in_order_prefix(runs);
        insert_extends_the_preceding_format(runs.drop_last(), at, n, byte);
        assert(inserted(runs, at, n).drop_last() =~= inserted(runs.drop_last(), at, n));
        let run = runs.last();
        assert(inserted(runs, at, n).last() == insert_into_run(run, at, n));
        if run.start < at && run.end == at && byte >= at + n {
        }
        if run.start < at <= run.end {
            let rest = runs.drop_last();
            if rest.len() > 0 {
                assert(rest.last() == runs[runs.len() - 2]);
            }
            if byte >= at + n {
                format_at_past_end(rest, byte - n);
            }
        }
    }
}

/// An insertion keeps the runs of a block well formed.
pub proof fn insert_keeps_well_formed(runs: Seq<RunModel>, at: int, n: int, text_len: int)
    requires
        well_formed(runs, text_len),
        0 <= n,
        at <= text_len,
    ensures
        well_formed(inserted(runs, at, n), text_len + n),
{
    let new = inserted(runs, at, n);
    assert forall|i: int, j: int| 0 <= i < j < new.len() implies (#[trigger] new[i]).end <= (
    #[trigger] new[j]).start by {
        assert(runs[i].end <= runs[j].start);
        assert(runs[i].start < runs[i].end);
        assert(runs[j].start < runs[j].end);
    }
    assert forall|i: int| 0 <= i < new.len() implies (#[trigger] new[i]).start < new[i].end by {
        assert(runs[i].start < runs[i].end);
    }
    assert forall|i: int| 0 < i < new.len() implies !continues(new[i - 1], #[trigger] new[i]) by {
        assert(!continues(runs[i - 1], runs[i]));
        assert(runs[i - 1].end <= runs[i].start);
        assert(runs[i - 1].start < runs[i - 1].end);
    }
    assert forall|byte: int| byte >= text_len + n implies #[trigger] format_at(new, byte) is None by {
        insert_extends_the_preceding_format(runs, at, n, byte);
        format_at_past_end(runs, byte - n);
    }
    ends_within(new, text_len + n);
}

proof fn pulled_shape(runs: Seq<RunModel>, start: int, end: int)
    requires
        in_order(runs),
        start < end,
        forall|byte: int| start <= byte < end ==> #[trigger] format_at(runs, byte) is None,
    ensures
        in_order(pulled(runs, end, end - start)),
{
    let new = pulled(runs, end, end - start);
    assert forall|i: int| 0 <= i < runs.len() implies (#[trigger] runs[i]).end <= start
        || runs[i].start >= end by {
        assert(runs[i].start < runs[i].end);
        if runs[i].start < end && runs[i].end > start {
            let byte = if runs[i].start >= start {
                runs[i].start
            } else {
                start
            };
            format_at_covers(runs, byte, i);
        }
    }
    assert forall|i: int, j: int| 0 <= i < j < new.len() implies (#[trigger] new[i]).end <= (
    #[trigger] new[j]).start by {
        assert(runs[i].end <= runs[j].start);
        assert(runs[i].start < runs[i].end);
    }
    assert forall|i: int| 0 <= i < new.len() implies (#[trigger] new[i]).start < new[i].end by {
        assert(runs[i].start < runs[i].end);
    }
}

proof fn pulled_formats(runs: Seq<RunModel>, start: int, end: int, byte: int)
    requires
        in_order(runs),
        start < end,
        forall|byte: int| start <= byte < end ==> #[trigger] format_at(runs, byte) is None,
    ensures
        format_at(pulled(runs, end, end - start), byte) == if byte < start {
            format_at(runs, byte)
        } else {
            format_at(runs, byte + end - start)
        },
{
    let new = pulled(runs, end, end - start);
    pulled_shape(runs, start, end);
    let source = if byte < start {
        byte
    } else {
        byte + end - start
    };
    if format_at(runs, source) is Some {
        let i = format_at_index(runs, source);
        assert(runs[i].start < runs[i].end);
        if byte >= start && runs[i].start < end {
            format_at_covers(runs, end - 1, i);
        }
        assert(new[i] == pull_run(runs[i], end, end - start));
        format_at_covers(new, byte, i);
    }
    if format_at(new, byte) is Some {
        let i = format_at_index(new, byte);
        assert(new[i] == pull_run(runs[i], end, end - start));
        if runs[i].start < end && byte >= start {
            if byte < end {
                format_at_covers(runs, byte, i);
            } else {
                format_at_covers(runs, end - 1, i);
            }
        }
        format_at_covers(runs, source, i);
    }
}

/// After a deletion each remaining byte wears what it wore.
pub proof fn delete_keeps_the_other_formats(
    runs: Seq<RunModel>,
    start: int,
    end: int,
    byte: int,
)
    requires
        in_order(runs),
        start <= end,
    ensures
        format_at(deleted(runs, start, end), byte) == if byte < start {
            format_at(runs, byte)
        } else {
            format_at(runs, byte + end - start)
        },
{
    if start < end {
        let nothing = Seq::<RunModel>::empty();
        let cut = spliced(runs, start, end, nothing);
        splice_parts_in_order(runs, start, end, nothing);
        coalesced_shape(before(runs, start) + nothing + after(runs, end));
        assert forall|b: int| start <= b < end implies #[trigger] format_at(cut, b) is None by {
            splice_changes_only_its_range(runs, start, end, nothing, b);
        }
        pulled_shape(cut, start, end);
        pulled_formats(cut, start, end, byte);
        coalesce_keeps_formats(pulled(cut, end, end - start), byte);
        splice_changes_only_its_range(runs, start, end, nothing, byte);
        splice_changes_only_its_range(runs, start, end, nothing, byte + end - start);
    }
}

proof fn deleted_canonical(runs: Seq<RunModel>, start: int, end: int)
    requires
        canonical(runs),
    ensures
        canonical(deleted(runs, start, end)),
{
    if start < end {
        let nothing = Seq::<RunModel>::empty();
        let cut = spliced(runs, start, end, nothing);
        splice_parts_in_order(runs, start, end, nothing);
        coalesced_shape(before(runs, start) + nothing + after(runs, end));
        assert forall|b: int| start <= b < end implies #[trigger] format_at(cut, b) is None by {
            splice_changes_only_its_range(runs, start, end, nothing, b);
        }
        pulled_shape(cut, start, end);
        coalesced_shape(pulled(cut, end, end - start));
    }
}

/// A deletion keeps the runs of a block well formed.
pub proof fn delete_keeps_well_formed(runs: Seq<RunModel>, start: int, end: int, text_len: int)
    requires
        well_formed(runs, text_len),
        start <= end <= text_len,
    ensures
        well_formed(deleted(runs, start, end), text_len - (end - start)),
{
    deleted_canonical(runs, start, end);
    let new = deleted(runs, start, end);
    assert forall|byte: int| byte >= text_len - (end - start) implies #[trigger] format_at(
        new,
        byte,
    ) is None by {
        delete_keeps_the_other_formats(runs, start, end, byte);
        format_at_past_end(runs, byte + end - start);
    }
    ends_within(new, text_len - (end - start));
}

/// Deleting what was just inserted gives the runs back.
pub proof fn delete_undoes_insert(runs: Seq<RunModel>, at: int, n: int, text_len: int)
    requires
        well_formed(runs, text_len),
        0 <= n,
        at <= text_len,
    ensures
        deleted(inserted(runs, at, n), at, at + n) == runs,
{
    let grown = inserted(runs, at, n);
    insert_keeps_well_formed(runs, at, n, text_len);
    deleted_canonical(grown, at, at + n);
    let back = deleted(grown, at, at + n);
    assert forall|byte: int| #[trigger] format_at(back, byte) == format_at(runs, byte) by {
        delete_keeps_the_other_formats(grown, at, at + n, byte);
        if byte < at {
            insert_extends_the_preceding_format(runs, at, n, byte);
        } else {
            insert_extends_the_preceding_format(runs, at, n, byte + n);
        }
    }
    canonical_runs_are_unique(back, runs);
}

/// A replacement under the default policy is a deletion followed by an insertion.
pub proof fn inheriting_is_delete_then_insert(
    runs: Seq<RunModel>,
    start: int,
    end: int,
    n: int,
)
    ensures
        replaced(runs, start, end, n, ReplaceFormatPolicy::InheritPreceding) == inserted(
            deleted(runs, start, end),
            start,
            n,
        ),
{
}

/// After a replacement each byte outside it wears what it wore, and the
/// replacement wears what its policy forces on it, or else what the byte before
/// it wears.
pub proof fn replace_dresses_as_the_policy_says(
    runs: Seq<RunModel>,
    start: int,
    end: int,
    n: int,
    policy: ReplaceFormatPolicy,
    byte: int,
)
    requires
        canonical(runs),
        start <= end,
        0 <= n,
    ensures
        format_at(replaced(runs, start, end, n, policy), byte) == if byte < start {
            format_at(runs, byte)
        } else if byte >= start + n {
            format_at(runs, byte - n + end - start)
        } else {
            match forced_format(runs, start, end, policy) {
                Some(format) => format,
                None => format_at(runs, start - 1),
            }
        },
{
    let kept = deleted(runs, start, end);
    deleted_canonical(runs, start, end);
    let inherited = inserted(kept, start, n);
    insert_extends_the_preceding_format(kept, start, n, byte);
    delete_keeps_the_other_formats(runs, start, end, byte);
    delete_keeps_the_other_formats(runs, start, end, byte - n);
    delete_keeps_the_other_formats(runs, start, end, start - 1);
    if let Some(format) = forced_format(runs, start, end, policy) {
        if n > 0 {
            inserted_in_order(kept, start, n);
            let put = dressing(start, n, format);
            splice_changes_only_its_range(inherited, start, start + n, put, byte);
            if let Some(f) = format {
                assert(put.drop_last() =~= Seq::<RunModel>::empty());
                reveal_with_fuel(format_at, 2);
            }
        }
    }
}

proof fn inserted_in_order(runs: Seq<RunModel>, at: int, n: int)
    requires
        in_order(runs),
        0 <= n,
    ensures
        in_order(inserted(runs, at, n)),
{
    let new = inserted(runs, at, n);
    assert forall|i: int, j: int| 0 <= i < j < new.len() implies (#[trigger] new[i]).end <= (
    #[trigger] new[j]).start by {
        assert(runs[i].end <= runs[j].start);
        assert(runs[i].start < runs[i].end);
        assert(runs[j].start < runs[j].end);
    }
    assert forall|i: int| 0 <= i < new.len() implies (#[trigger] new[i]).start < new[i].end by {
        assert(runs[i].start < runs[i].end);
    }
}

/// A replacement keeps the runs of a block well formed, under every policy.
pub proof fn replace_keeps_well_formed(
    runs: Seq<RunModel>,
    start: int,
    end: int,
    n: int,
    policy: ReplaceFormatPolicy,
    text_len: int,
)
    requires
        well_formed(runs, text_len),
        start <= end <= text_len,
        0 <= n,
    ensures
        well_formed(replaced(runs, start, end, n, policy), text_len - (end - start) + n),
{
    delete_keeps_well_formed(runs, start, end, text_len);
    let kept = deleted(runs, start, end);
    let left = text_len - (end - start);
    insert_keeps_well_formed(kept, start, n, left);
    if let Some(format) = forced_format(runs, start, end, policy) {
        if n > 0 {
            splice_keeps_well_formed(
                inserted(kept, start, n),
                start,
                start + n,
                dressing(start, n, format),
                left + n,
            );
        }
    }
}

/// A range has a covering format exactly when it is not empty and every byte
/// of it wears that format.
pub proof fn covering_format_is_worn_throughout(
    runs: Seq<RunModel>,
    start: int,
    end: int,
    format: FormatModel,
)
    requires
        canonical(runs),
    ensures
        covering(runs, start, end) == Some(format) <==> start < end && forall|byte: int|
            start <= byte < end ==> #[trigger] format_at(runs, byte) == Some(format),
{
    if start < end {
        first_covering_index(runs, start, end, 0);
        if covering(runs, start, end) == Some(format) {
            let i = choose|i: int|
                0 <= i < runs.len() && covers(#[trigger] runs[i], start, end)
                    && runs[i].format == format;
            assert forall|byte: int| start <= byte < end implies #[trigger] format_at(runs, byte)
                == Some(format) by {
                format_at_covers(runs, byte, i);
            }
        }
        if forall|byte: int|
            start <= byte < end ==> #[trigger] format_at(runs, byte) == Some(format) {
            assert(format_at(runs, start) == Some(format));
            let i = format_at_index(runs, start);
            if runs[i].end < end {
                assert(format_at(runs, runs[i].end) == Some(format));
                let j = format_at_index(runs, runs[i].end);
                if j < i {
                    assert(runs[j].end <= runs[i].start);
                    assert(runs[i].start < runs[i].end);
                }
                assert(i != j);
                assert(runs[i].end <= runs[j].start);
                if i + 1 < j {
                    assert(runs[i].end <= runs[i + 1].start);
                    assert(runs[i + 1].start < runs[i + 1].end);
                    assert(runs[i + 1].end <= runs[j].start);
                }
                assert(!continues(runs[j - 1], runs[j]));
            }
            assert(covers(runs[i], start, end));
            let k = choose|k: int|
                0 <= k < runs.len() && covers(#[trigger] runs[k], start, end)
                    && covering(runs, start, end) == Some(runs[k].format);
            format_at_covers(runs, start, k);
        }
    }
}

proof fn first_covering_index(runs: Seq<RunModel>, start: int, end: int, i: int)
    requires
        0 <= i,
    ensures
        match first_covering(runs, start, end, i) {
            Some(format) => exists|j: int|
                i <= j < runs.len() && covers(#[trigger] runs[j], start, end) && runs[j].format
                    == format,
            None => forall|j: int| i <= j < runs.len() ==> !covers(#[trigger] runs[j], start, end),
        },
    decreases runs.len() - i,
{
    if i < runs.len() {
        first_covering_index(runs, start, end, i + 1);
        if covers(runs[i], start, end) {
            assert(covers(runs[i], start, end) && runs[i].format == runs[i].format);
        }
    }
}

/// The dominant run of a range is the earliest of those that cover most of it.
pub proof fn widest_is_the_earliest_maximum(runs: Seq<RunModel>, start: int, end: int)
    ensures
        match widest(runs, start, end) {
            Some((width, format)) => exists|i: int|
                0 <= i < runs.len() && width == overlap(#[trigger] runs[i], start, end) && format
                    == runs[i].format && width > 0 && (forall|j: int|
                    0 <= j < runs.len() ==> overlap(#[trigger] runs[j], start, end) <= width) && (
                forall|j: int| 0 <= j < i ==> overlap(#[trigger] runs[j], start, end) < width),
            None => forall|j: int|
                0 <= j < runs.len() ==> overlap(#[trigger] runs[j], start, end) == 0,
        },
    decreases runs.len(),
{
    if runs.len() > 0 {
        let rest = runs.drop_last();
        widest_is_the_earliest_maximum(rest, start, end);
        let last = runs.len() - 1;
        let width = overlap(runs.last(), start, end);
        assert forall|j: int| 0 <= j < last implies overlap(#[trigger] runs[j], start, end)
            == overlap(rest[j], start, end) by {
        }
        match widest(rest, start, end) {
            Some((most, format)) => {
                let i = choose|i: int|
                    0 <= i < rest.len() && most == overlap(#[trigger] rest[i], start, end)
                        && format == rest[i].format && most > 0 && (forall|j: int|
                        0 <= j < rest.len() ==> overlap(#[trigger] rest[j], start, end) <= most)
                        && (forall|j: int|
                        0 <= j < i ==> overlap(#[trigger] rest[j], start, end) < most);
                if width > most {
                    assert(overlap(runs[last], start, end) == width);
                } else {
                    assert(overlap(runs[i], start, end) == most);
                }
            },
            None => {
                if width > 0 {
                    assert(overlap(runs[last], start, end) == width);
                }
            },
        }
    }
}

/// A range formatted no less than it is plain by some one run keeps a format; a
/// range more plain than that stays plain.
pub proof fn ties_go_to_the_formatted_run(runs: Seq<RunModel>, start: int, end: int)
    requires
        start < end,
    ensures
        dominant(runs, start, end) is Some <==> exists|i: int|
            0 <= i < runs.len() && overlap(#[trigger] runs[i], start, end) > 0 && overlap(
                runs[i],
                start,
                end,
            ) >= end - start - covered(runs, start, end),
{
    widest_is_the_earliest_maximum(runs, start, end);
}

proof fn covered_by_order(runs: Seq<RunModel>, start: int, end: int)
    requires
        in_order(runs),
        start <= end,
    ensures
        0 <= covered(runs, start, end),
        runs.len() > 0 ==> covered(runs, start, end) <= (clipped(runs.last(), start, end).end
            - start) || covered(runs, start, end) == 0,
        covered(runs, start, end) <= end - start,
    decreases runs.len(),
{
    if runs.len() > 0 {
        in_order_prefix(runs);
        covered_by_order(runs.drop_last(), start, end);
        if runs.len() > 1 {
            assert(runs.drop_last().last() == runs[runs.len() - 2]);
        }
    }
}

/// Every replacement within a block's text can be made, as long as the new text
/// is not longer than offsets can say.
pub proof fn well_formed_runs_can_be_replaced(
    runs: Seq<RunModel>,
    start: int,
    end: int,
    n: int,
    policy: ReplaceFormatPolicy,
    text_len: int,
)
    requires
        well_formed(runs, text_len),
        0 <= start <= end <= text_len,
        0 <= n,
        text_len - (end - start) + n <= u32::MAX,
    ensures
        can_replace(runs, start, end, n, policy),
{
    assert forall|i: int|
        0 <= i < runs.len() && (#[trigger] runs[i]).start >= end implies runs[i].start
        <= runs[i].end by {
        assert(runs[i].start < runs[i].end);
    }
    covered_by_order(runs, start, end);
    delete_keeps_well_formed(runs, start, end, text_len);
    let kept = deleted(runs, start, end);
    let left = text_len - (end - start);
    insert_keeps_well_formed(kept, start, n, left);
    let new = inserted(kept, start, n);
    assert forall|i: int| 0 <= i < kept.len() implies insert_into_run(#[trigger] kept[i], start, n).start
        <= u32::MAX && insert_into_run(kept[i], start, n).end <= u32::MAX by {
        assert(new[i] == insert_into_run(kept[i], start, n));
        assert(new[i].start < new[i].end);
        assert(new.last() == new[new.len() - 1]);
        if i < new.len() - 1 {
            assert(new[i].end <= new[new.len() - 1].start);
            assert(new[new.len() - 1].start < new[new.len() - 1].end);
        }
    }
}

proof fn right_of_is_after(runs: Seq<RunModel>, at: int)
    requires
        in_order(runs),
    ensures
        right_of(runs, at) == after(runs, at),
    decreases runs.len(),
{
    if runs.len() > 0 {
        in_order_prefix(runs);
        right_of_is_after(runs.drop_last(), at);
    }
}

/// A split shares the bytes of a block's runs between its halves, each byte
/// wearing what it wore.
pub proof fn split_keeps_formats(runs: Seq<RunModel>, at: int, byte: int)
    requires
        in_order(runs),
    ensures
        format_at(split_runs(runs, at).0, byte) == if byte < at {
            format_at(runs, byte)
        } else {
            None
        },
        format_at(split_runs(runs, at).1, byte) == if byte >= 0 {
            format_at(runs, byte + at)
        } else {
            None
        },
{
    before_formats(runs, at, byte);
    right_of_is_after(runs, at);
    after_formats(runs, at, byte + at);
    rebased_formats(after(runs, at), at, byte);
}

proof fn rebased_formats(runs: Seq<RunModel>, at: int, byte: int)
    ensures
        format_at(
            runs.map_values(
                |run: RunModel| RunModel { start: run.start - at, end: run.end - at, ..run },
            ),
            byte,
        ) == format_at(runs, byte + at),
    decreases runs.len(),
{
    let f = |run: RunModel| RunModel { start: run.start - at, end: run.end - at, ..run };
    if runs.len() > 0 {
        rebased_formats(runs.drop_last(), at, byte);
        assert(runs.map_values(f).drop_last() =~= runs.drop_last().map_values(f));
    }
}

/// A split keeps the runs of both halves well formed.
pub proof fn split_keeps_well_formed(runs: Seq<RunModel>, at: int, text_len: int)
    requires
        well_formed(runs, text_len),
        at <= text_len,
    ensures
        well_formed(split_runs(runs, at).0, at),
        well_formed(split_runs(runs, at).1, text_len - at),
{
    right_of_is_after(runs, at);
    before_shape(runs, at);
    after_shape(runs, at);
    before_merged(runs, at);
    after_merged(runs, at);
    let left = split_runs(runs, at).0;
    let kept = after(runs, at);
    let right = split_runs(runs, at).1;
    if left.len() > 0 {
        assert(left.last() == left[left.len() - 1]);
    }
    assert forall|i: int| 0 <= i < right.len() implies (#[trigger] right[i]).start < right[i].end by {
        assert(kept[i].start < kept[i].end);
    }
    assert forall|i: int, j: int| 0 <= i < j < right.len() implies (#[trigger] right[i]).end <= (
    #[trigger] right[j]).start by {
        assert(kept[i].end <= kept[j].start);
    }
    assert forall|i: int| 0 < i < right.len() implies !continues(right[i - 1], #[trigger] right[i]) by {
        assert(!continues(kept[i - 1], kept[i]));
    }
}

proof fn before_merged(runs: Seq<RunModel>, at: int)
    requires
        canonical(runs),
    ensures
        fully_merged(before(runs, at)),
        before(runs, at).len() > 0 ==> before(runs, at).last().format == runs[before(
            runs,
            at,
        ).len() - 1].format && before(runs, at).last().start == runs[before(runs, at).len()
            - 1].start && before(runs, at).last().end <= runs[before(runs, at).len() - 1].end,
        before(runs, at).len() <= runs.len(),
        before(runs, at).len() < runs.len() ==> runs[before(runs, at).len() as int].start >= at,
    decreases runs.len(),
{
    if runs.len() > 0 {
        in_order_prefix(runs);
        canonical_prefix(runs);
        let rest = runs.drop_last();
        let kept = before(rest, at);
        before_merged(rest, at);
        let run = runs.last();
        if kept.len() < rest.len() {
            assert(runs[kept.len() as int].end <= run.start);
            assert(runs[kept.len() as int].start < runs[kept.len() as int].end);
        } else if kept.len() > 0 {
            assert(!continues(runs[kept.len() - 1], runs[kept.len() as int]));
            assert(runs[kept.len() - 1].end <= run.start);
        }
        let new = before(runs, at);
        assert forall|i: int| 0 < i < new.len() implies !continues(new[i - 1], #[trigger] new[i]) by {
            if i < kept.len() {
                assert(!continues(kept[i - 1], kept[i]));
            } else {
                assert(new[i - 1] == kept.last());
            }
        }
    }
}

proof fn after_merged(runs: Seq<RunModel>, at: int)
    requires
        canonical(runs),
    ensures
        fully_merged(after(runs, at)),
        after(runs, at).len() > 0 ==> runs.len() > 0 && after(runs, at).last().format
            == runs.last().format && after(runs, at).last().end == runs.last().end,
        after(runs, at).len() == 0 && runs.len() > 0 ==> runs.last().end <= at,
    decreases runs.len(),
{
    if runs.len() > 0 {
        in_order_prefix(runs);
        canonical_prefix(runs);
        let rest = runs.drop_last();
        let kept = after(rest, at);
        after_merged(rest, at);
        after_shape(rest, at);
        let run = runs.last();
        let new = after(runs, at);
        if kept.len() > 0 {
            assert(rest.last() == runs[runs.len() - 2]);
            assert(!continues(runs[runs.len() - 2], runs[runs.len() - 1]));
            assert(kept.last() == kept[kept.len() - 1]);
        }
        assert forall|i: int| 0 < i < new.len() implies !continues(new[i - 1], #[trigger] new[i]) by {
            if i < kept.len() {
                assert(!continues(kept[i - 1], kept[i]));
            } else {
                assert(new[i - 1] == kept.last());
            }
        }
    }
}

} // verus!
