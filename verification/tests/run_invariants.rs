use text_document::format_runs::{
    check_well_formed, try_splice_range, CharacterFormat, FormatRun, FormatRunError,
};

fn run(start: u32, end: u32, bold: bool) -> FormatRun {
    FormatRun {
        byte_start: start,
        byte_end: end,
        format: CharacterFormat {
            font_bold: Some(bold),
            ..Default::default()
        },
    }
}

#[test]
fn a_replacement_outside_the_range_is_rejected_without_mutating() {
    let mut runs = vec![run(0, 20, true)];
    let before = runs.clone();

    let err = try_splice_range(&mut runs, 5..10, vec![run(5, 15, false)])
        .expect_err("a replacement run reaching past range.end must be rejected");

    assert!(matches!(
        err,
        FormatRunError::ReplacementOutsideRange {
            run_end: 15,
            range_end: 10,
            ..
        }
    ));
    assert_eq!(
        runs, before,
        "a rejected splice must not half-apply — validation happens before mutation"
    );
}

#[test]
fn a_reversed_range_is_rejected() {
    let mut runs = vec![run(0, 20, true)];
    assert!(matches!(
        try_splice_range(&mut runs, 10..5, vec![]),
        Err(FormatRunError::ReversedRange { start: 10, end: 5 })
    ));
}

#[test]
fn a_legal_splice_still_works_through_the_checked_path() {
    let mut runs = vec![run(0, 20, true)];
    try_splice_range(&mut runs, 5..15, vec![run(5, 15, false)]).expect("legal");
    assert_eq!(runs.len(), 3);
    assert_eq!(runs[1].format.font_bold, Some(false));
}

#[test]
fn check_well_formed_catches_what_debug_assert_used_to() {
    assert!(check_well_formed(&[], 0).is_ok());
    assert!(check_well_formed(&[run(0, 5, true)], 5).is_ok());

    assert!(matches!(
        check_well_formed(&[run(5, 5, true)], 10),
        Err(FormatRunError::EmptyRun { .. })
    ));
    assert!(matches!(
        check_well_formed(&[run(0, 8, true), run(5, 10, false)], 10),
        Err(FormatRunError::RunsOverlap { .. })
    ));
    assert!(matches!(
        check_well_formed(&[run(0, 5, true), run(5, 10, true)], 10),
        Err(FormatRunError::RunsNotCoalesced { .. })
    ));
    assert!(matches!(
        check_well_formed(&[run(0, 20, true)], 10),
        Err(FormatRunError::RunPastEndOfBlock { text_len: 10, .. })
    ));
}
