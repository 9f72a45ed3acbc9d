use text_document::format_runs::ReplaceFormatPolicy::{
    InheritPreceding, KeepDominantRun, PreserveIfFullyCovered, PreserveNothing,
};
use text_document::format_runs::{
    check_well_formed, shift_runs_for_delete, shift_runs_for_insert, shift_runs_for_replace,
    CharacterFormat, FormatRun, FormatRunError, ReplaceFormatPolicy,
};

fn fmt(tag: &str) -> CharacterFormat {
    CharacterFormat {
        font_bold: Some(tag == "B"),
        font_italic: Some(tag == "I"),
        ..Default::default()
    }
}
fn r(start: u32, end: u32, tag: &str) -> FormatRun {
    FormatRun {
        byte_start: start,
        byte_end: end,
        format: fmt(tag),
    }
}
fn show(runs: &[FormatRun]) -> String {
    if runs.is_empty() {
        return "[]".to_string();
    }
    runs.iter()
        .map(|x| {
            let tag = if x.format.font_bold == Some(true) {
                "B"
            } else if x.format.font_italic == Some(true) {
                "I"
            } else {
                "p"
            };
            format!("{}..{}={tag}", x.byte_start, x.byte_end)
        })
        .collect::<Vec<_>>()
        .join(" ")
}
fn replace(
    runs: &[FormatRun],
    start: u32,
    end: u32,
    n: u32,
    policy: ReplaceFormatPolicy,
) -> Vec<FormatRun> {
    let mut runs = runs.to_vec();
    shift_runs_for_replace(&mut runs, start, end, n, policy).expect("valid replace");
    runs
}

#[test]
fn inherit_preceding_matches_the_historical_delete_then_insert() {
    let corpus: Vec<(&str, Vec<FormatRun>, u32, u32, u32)> = vec![
        ("run ends exactly at start", vec![r(0, 5, "B")], 5, 10, 3),
        ("run begins exactly at start", vec![r(5, 8, "B")], 5, 10, 3),
        (
            "run begins at start, outlives end",
            vec![r(5, 20, "B")],
            5,
            10,
            3,
        ),
        (
            "run straddles the whole range",
            vec![r(0, 20, "B")],
            5,
            10,
            3,
        ),
        ("no run touches the start", vec![r(12, 20, "B")], 5, 10, 3),
        ("bold tail inside the range", vec![r(9, 13, "B")], 5, 13, 4),
        ("pure delete", vec![r(0, 20, "B")], 5, 10, 0),
        ("pure insert", vec![r(0, 20, "B")], 5, 5, 3),
        (
            "same format either side coalesces",
            vec![r(0, 5, "B"), r(10, 15, "B")],
            5,
            10,
            3,
        ),
        (
            "different formats either side",
            vec![r(0, 5, "B"), r(10, 15, "I")],
            5,
            10,
            3,
        ),
        ("empty run list", vec![], 5, 10, 3),
        ("the only run is consumed", vec![r(5, 10, "B")], 5, 10, 3),
        (
            "replacement longer than the range",
            vec![r(0, 5, "B")],
            5,
            10,
            20,
        ),
        (
            "three runs straddled",
            vec![r(0, 3, "B"), r(3, 6, "I"), r(6, 9, "B")],
            2,
            7,
            4,
        ),
        (
            "gap between two same-format runs is deleted",
            vec![r(0, 5, "B"), r(8, 13, "B")],
            5,
            8,
            0,
        ),
    ];

    for (name, runs, start, end, n) in corpus {
        let mut expected = runs.clone();
        shift_runs_for_delete(&mut expected, start, end);
        shift_runs_for_insert(&mut expected, start, n);

        let got = replace(&runs, start, end, n, ReplaceFormatPolicy::InheritPreceding);

        assert_eq!(
            show(&got),
            show(&expected),
            "InheritPreceding diverged from delete+insert for {name:?} \
             (replace {start}..{end}, n={n})\n  before:   {}\n  historical: {}\n  got:        {}",
            show(&runs),
            show(&expected),
            show(&got),
        );
    }
}

#[test]
fn the_four_policies_diverge_on_a_partly_bold_name() {
    let runs = vec![r(5, 9, "B")];
    let (start, end, n) = (0, 9, 9);

    assert_eq!(
        show(&replace(&runs, start, end, n, InheritPreceding)),
        "[]",
        "the historical default destroys the bold — pinned, not endorsed"
    );
    assert_eq!(
        show(&replace(&runs, start, end, n, PreserveNothing)),
        "[]",
        "explicitly unformatted"
    );
    assert_eq!(
        show(&replace(&runs, start, end, n, PreserveIfFullyCovered)),
        "[]",
        "no SINGLE run covers 0..9 — it must fall back to inheritance, not guess"
    );
    assert_eq!(
        show(&replace(&runs, start, end, n, KeepDominantRun)),
        "[]",
        "plain covers more of the name than the bold does"
    );

    let mostly_bold = vec![r(1, 9, "B")];
    assert_eq!(
        show(&replace(&mostly_bold, 0, 9, 9, KeepDominantRun)),
        "0..9=B",
        "bold covers 8 of 9 bytes — the rename must keep it"
    );
}

#[test]
fn fully_covered_means_a_single_run_not_a_gapless_union() {
    let two = vec![r(0, 3, "I"), r(3, 10, "B")];
    assert_eq!(
        show(&replace(
            &two,
            0,
            10,
            4,
            ReplaceFormatPolicy::PreserveIfFullyCovered
        )),
        "[]",
        "two different-format runs jointly spanning the range are not 'covered'; \
         with no run preceding the start, the fallback is unformatted"
    );

    let one = vec![r(5, 20, "B")];
    assert_eq!(
        show(&replace(
            &one,
            5,
            10,
            3,
            ReplaceFormatPolicy::PreserveIfFullyCovered
        )),
        "5..18=B",
        "a single covering run keeps its format across the rename"
    );
    assert_eq!(
        show(&replace(
            &one,
            5,
            10,
            3,
            ReplaceFormatPolicy::InheritPreceding
        )),
        "8..18=B",
        "…which the default would have lost: the replacement lands unformatted"
    );
}

#[test]
fn a_partially_overlapping_run_does_not_count_as_covering() {
    let runs = vec![r(0, 8, "B")];
    assert_eq!(
        show(&replace(
            &runs,
            5,
            12,
            4,
            ReplaceFormatPolicy::PreserveIfFullyCovered
        )),
        "0..9=B",
        "not covered → falls back to inheritance, which extends the preceding bold; \
         it must NOT format the whole replacement as though bold had covered it"
    );
}

#[test]
fn a_dominance_tie_between_two_runs_goes_to_the_earlier() {
    let runs = vec![r(0, 3, "B"), r(3, 6, "I")];
    assert_eq!(
        show(&replace(
            &runs,
            0,
            6,
            4,
            ReplaceFormatPolicy::KeepDominantRun
        )),
        "0..4=B",
        "a true tie must resolve to the earlier run, not to whichever the iterator \
         happened to visit last"
    );
}

#[test]
fn a_dominance_tie_against_plain_text_keeps_the_formatting() {
    let runs = vec![r(4, 8, "B")];
    assert_eq!(
        show(&replace(
            &runs,
            0,
            8,
            5,
            ReplaceFormatPolicy::KeepDominantRun
        )),
        "0..5=B",
        "an even split must keep the formatting rather than silently drop it"
    );
}

#[test]
fn an_empty_range_is_an_insert_and_no_coverage_policy_overrides_it() {
    let runs = vec![r(0, 5, "B"), r(5, 10, "I")];
    for policy in [InheritPreceding, PreserveIfFullyCovered, KeepDominantRun] {
        assert_eq!(
            show(&replace(&runs, 5, 5, 2, policy)),
            "0..7=B 7..12=I",
            "{policy:?}: typing at a boundary must inherit the run to the LEFT (Qt \
             convention) — an empty range destroyed no formatting, so there is \
             nothing for a coverage policy to override"
        );
    }
    assert_eq!(
        show(&replace(&runs, 5, 5, 2, PreserveNothing)),
        "0..5=B 7..12=I",
        "PreserveNothing asks for unformatted text, and means it even on an insert"
    );
}

#[test]
fn a_zero_width_zero_length_replace_is_the_identity() {
    let runs = vec![r(0, 5, "B"), r(7, 12, "I")];
    for policy in [
        ReplaceFormatPolicy::InheritPreceding,
        ReplaceFormatPolicy::PreserveIfFullyCovered,
        ReplaceFormatPolicy::KeepDominantRun,
        ReplaceFormatPolicy::PreserveNothing,
    ] {
        assert_eq!(
            show(&replace(&runs, 6, 6, 0, policy)),
            "0..5=B 7..12=I",
            "{policy:?} changed a no-op edit"
        );
    }
}

#[test]
fn preserve_nothing_fabricates_no_default_run() {
    let runs = vec![r(0, 5, "B")];
    let got = replace(&runs, 7, 9, 2, ReplaceFormatPolicy::PreserveNothing);
    assert_eq!(show(&got), "0..5=B", "no run may be invented for the gap");
    assert!(
        got.iter().all(|x| x.byte_start < 7 || x.byte_end > 9),
        "the replaced span must carry no run at all"
    );
}

#[test]
fn offsets_are_bytes_not_characters() {
    let runs = vec![r(0, 4, "B"), r(5, 9, "I")];
    let got = replace(&runs, 0, 4, 2, ReplaceFormatPolicy::KeepDominantRun);
    assert_eq!(
        show(&got),
        "0..2=B 3..7=I",
        "the trailing italic must shift back by the BYTE delta (4 -> 2 = -2)"
    );
}

#[test]
fn every_policy_leaves_the_runs_well_formed() {
    let setups: Vec<(Vec<FormatRun>, u32, u32, u32, usize)> = vec![
        (vec![r(0, 3, "B"), r(3, 6, "I"), r(6, 9, "B")], 2, 7, 4, 8),
        (vec![r(0, 5, "B"), r(8, 13, "B")], 5, 8, 0, 10),
        (vec![r(0, 5, "B"), r(7, 12, "B")], 8, 10, 2, 12),
        (vec![r(3, 7, "B")], 3, 7, 0, 6),
        (vec![], 2, 6, 3, 9),
    ];
    for (runs, start, end, n, text_len) in setups {
        for policy in [
            ReplaceFormatPolicy::InheritPreceding,
            ReplaceFormatPolicy::PreserveIfFullyCovered,
            ReplaceFormatPolicy::KeepDominantRun,
            ReplaceFormatPolicy::PreserveNothing,
        ] {
            let got = replace(&runs, start, end, n, policy);
            check_well_formed(&got, text_len).unwrap_or_else(|e| {
                panic!(
                    "{policy:?} produced malformed runs from {} (replace {start}..{end}, \
                     n={n}): {} — {e:?}",
                    show(&runs),
                    show(&got)
                )
            });
        }
    }
}

#[test]
fn an_untouched_gap_between_equal_runs_survives() {
    let runs = vec![r(0, 5, "B"), r(7, 12, "B")];
    assert_eq!(
        show(&replace(
            &runs,
            8,
            10,
            2,
            ReplaceFormatPolicy::InheritPreceding
        )),
        "0..5=B 7..12=B",
        "the plain gap at 5..7 must not be swallowed"
    );
}

#[test]
fn an_inverted_range_is_an_error_not_a_panic() {
    let mut runs = vec![r(0, 5, "B")];
    let err =
        shift_runs_for_replace(&mut runs, 10, 5, 3, ReplaceFormatPolicy::InheritPreceding)
            .expect_err("an inverted range must be rejected");
    assert!(matches!(
        err,
        FormatRunError::ReversedRange { start: 10, end: 5 }
    ));
    assert_eq!(show(&runs), "0..5=B", "a refused edit must change nothing");
}
