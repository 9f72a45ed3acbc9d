use text_document::entities::{CharVerticalAlignment, UnderlineStyle};
use text_document::format_runs::{
    capture_image_formats_in_range, capture_runs_in_range, check_well_formed, coalesce_in_place,
    logical_offset_to_byte, shift_footnote_refs_for_insert, shift_images_after,
    shift_images_for_delete, shift_images_for_insert, shift_runs_for_delete,
    shift_runs_for_insert, splice_range, split_footnote_refs_at, split_images_at, split_runs_at,
    synth_element_id, try_splice_range, CharacterFormat, FootnoteRefAnchor, FormatRun,
    FormatRunError, ImageAnchor,
};
use text_document::parser_tools::content_parser::{
    format_runs_from_spans, ParsedImage, ParsedSpan,
};
use text_document::parser_tools::PlainTextExportOptions;

fn bold() -> CharacterFormat {
    CharacterFormat {
        font_bold: Some(true),
        ..CharacterFormat::default()
    }
}

fn run(byte_start: u32, byte_end: u32, format: CharacterFormat) -> FormatRun {
    FormatRun {
        byte_start,
        byte_end,
        format,
    }
}

fn image(byte_offset: u32) -> ImageAnchor {
    ImageAnchor {
        byte_offset,
        name: format!("{byte_offset}.png"),
        alt: String::new(),
        width: 1,
        height: 1,
        quality: 100,
        format: bold(),
    }
}

fn offsets(images: &[ImageAnchor]) -> Vec<u32> {
    images.iter().map(|i| i.byte_offset).collect()
}

fn bounds(runs: &[FormatRun]) -> Vec<(u32, u32)> {
    runs.iter().map(|r| (r.byte_start, r.byte_end)).collect()
}

#[test]
fn splicing_the_capture_back_undoes_a_splice() {
    let before = vec![run(0, 4, bold()), run(6, 10, CharacterFormat::default())];
    let captured = capture_runs_in_range(&before, 2, 8);
    assert_eq!(bounds(&captured), vec![(2, 4), (6, 8)]);
    let mut runs = before.clone();
    splice_range(&mut runs, 2..8, vec![]);
    assert_eq!(bounds(&runs), vec![(0, 2), (8, 10)]);
    splice_range(&mut runs, 2..8, captured);
    assert_eq!(runs, before);
}

#[test]
fn deleting_what_was_inserted_undoes_the_insert() {
    let before = vec![run(0, 4, bold()), run(6, 10, CharacterFormat::default())];
    let mut runs = before.clone();
    shift_runs_for_insert(&mut runs, 4, 3);
    assert_eq!(bounds(&runs), vec![(0, 7), (9, 13)]);
    shift_runs_for_delete(&mut runs, 4, 7);
    assert_eq!(runs, before);

    let mut images = vec![image(1), image(4), image(9)];
    shift_images_for_insert(&mut images, 4, 3);
    assert_eq!(offsets(&images), vec![1, 7, 12]);
    assert_eq!(shift_images_for_delete(&mut images, 4, 7), 0);
    assert_eq!(offsets(&images), vec![1, 4, 9]);
    assert_eq!(shift_images_for_delete(&mut images, 4, 7), 1);
    assert_eq!(offsets(&images), vec![1, 6]);
    shift_images_after(&mut images, 6, -2);
    assert_eq!(offsets(&images), vec![1, 4]);
}

#[test]
fn a_split_gives_two_blocks_their_share() {
    let (left, right) = split_runs_at(&[run(0, 4, bold()), run(6, 10, bold())], 2);
    assert_eq!(bounds(&left), vec![(0, 2)]);
    assert_eq!(bounds(&right), vec![(0, 2), (4, 8)]);
    let (left, right) = split_images_at(&[image(1), image(5), image(9)], 5);
    assert_eq!(offsets(&left), vec![1]);
    assert_eq!(offsets(&right), vec![0, 4]);
    let note = |byte_offset| FootnoteRefAnchor {
        byte_offset,
        label: "n".to_string(),
        format: CharacterFormat::default(),
    };
    let (left, right) = split_footnote_refs_at(&[note(2), note(7)], 3);
    assert_eq!((left[0].byte_offset, right[0].byte_offset), (2, 4));
    let mut notes = vec![note(2), note(7)];
    shift_footnote_refs_for_insert(&mut notes, 7, 3);
    assert_eq!((notes[0].byte_offset, notes[1].byte_offset), (2, 10));
}

#[test]
fn formats_of_images_in_a_range_are_captured() {
    let captured = capture_image_formats_in_range(&[image(1), image(5), image(9)], 2, 9);
    assert_eq!(captured, vec![(5, bold())]);
}

#[test]
fn each_broken_invariant_has_its_error() {
    let plain = CharacterFormat::default;
    assert_eq!(
        try_splice_range(&mut vec![], 5..2, vec![]),
        Err(FormatRunError::ReversedRange { start: 5, end: 2 })
    );
    assert_eq!(
        try_splice_range(&mut vec![], 2..5, vec![run(1, 3, bold())]),
        Err(FormatRunError::ReplacementOutsideRange {
            run_start: 1,
            run_end: 3,
            range_start: 2,
            range_end: 5
        })
    );
    assert_eq!(
        try_splice_range(&mut vec![], 2..5, vec![run(3, 3, bold())]),
        Err(FormatRunError::EmptyRun { start: 3, end: 3 })
    );
    assert!(matches!(
        check_well_formed(&[run(0, 4, bold()), run(3, 5, plain())], 9),
        Err(FormatRunError::RunsOverlap { index: 0, .. })
    ));
    assert_eq!(
        check_well_formed(&[run(0, 4, bold()), run(4, 5, bold())], 9),
        Err(FormatRunError::RunsNotCoalesced { index: 0 })
    );
    assert_eq!(
        check_well_formed(&[run(0, 4, bold())], 3),
        Err(FormatRunError::RunPastEndOfBlock {
            start: 0,
            end: 4,
            text_len: 3
        })
    );
    let mut runs = vec![run(0, 4, bold()), run(4, 5, bold()), run(5, 6, plain())];
    coalesce_in_place(&mut runs);
    assert_eq!(bounds(&runs), vec![(0, 5), (5, 6)]);
    assert_eq!(check_well_formed(&runs, 6), Ok(()));
}

#[test]
fn each_error_says_what_is_wrong() {
    let says = |error: FormatRunError| error.message();
    assert_eq!(
        says(FormatRunError::ReversedRange { start: 5, end: 2 }),
        "byte range 5..2 is reversed"
    );
    assert_eq!(
        says(FormatRunError::ReplacementOutsideRange {
            run_start: 1,
            run_end: 3,
            range_start: 2,
            range_end: 5
        }),
        "replacement run 1..3 falls outside the spliced range 2..5"
    );
    assert_eq!(
        says(FormatRunError::EmptyRun { start: 3, end: 3 }),
        "run 3..3 is empty or reversed"
    );
    assert_eq!(
        says(FormatRunError::RunsNotCoalesced { index: 10 }),
        "adjacent runs with identical formatting were left uncoalesced at index 10"
    );
    assert_eq!(
        says(FormatRunError::RunPastEndOfBlock {
            start: 0,
            end: 4,
            text_len: 3
        }),
        "run 0..4 runs past the end of the block's 3 bytes"
    );
    let left = run(
        0,
        4,
        CharacterFormat {
            font_family: Some("a \"b\"\n".to_string()),
            font_point_size: Some(-12),
            font_bold: Some(true),
            font_italic: Some(false),
            anchor_names: vec!["x".to_string(), "y\u{301}".to_string()],
            underline_style: Some(UnderlineStyle::WaveUnderline),
            vertical_alignment: Some(CharVerticalAlignment::SubScript),
            ..CharacterFormat::default()
        },
    );
    let right = run(3, 5, CharacterFormat::default());
    assert_eq!(
        says(FormatRunError::RunsOverlap {
            index: 2,
            left: Box::new(left.clone()),
            right: Box::new(right.clone()),
        }),
        format!("runs overlap or are out of order at index 2: {left:?} then {right:?}")
    );
}

#[test]
fn a_character_offset_is_a_byte_offset_of_the_text() {
    let text = "hé\u{FFFC}x";
    let at: Vec<u32> = [-1, 0, 1, 2, 3, 4, 9]
        .iter()
        .map(|c| logical_offset_to_byte(text, &[], *c))
        .collect();
    assert_eq!(at, vec![0, 0, 1, 3, 6, 7, 7]);
}

#[test]
fn fragments_of_blocks_have_ids_of_their_own() {
    assert_eq!(synth_element_id(1, 3), 0x4000_0001_0000_0003);
    assert_ne!(synth_element_id(1, 3), synth_element_id(3, 1));
}

#[test]
fn a_block_stores_a_sentinel_for_each_object() {
    let span = |text: &str| ParsedSpan {
        text: text.to_string(),
        ..ParsedSpan::default()
    };
    let mut strong = span("é");
    strong.bold = true;
    let mut picture = span("");
    picture.image = Some(ParsedImage {
        src: "a.png".to_string(),
        alt: "A".to_string(),
        width: 3,
        height: 4,
    });
    let mut note = span("");
    note.footnote_ref = Some("n".to_string());
    let inline = format_runs_from_spans(&[span("x"), strong.clone(), strong, picture, note], false);
    assert_eq!(inline.plain_text, "xéé\u{FFFC}\u{FFFC}");
    assert_eq!(bounds(&inline.runs), vec![(1, 5)]);
    assert_eq!(offsets(&inline.images), vec![5]);
    assert_eq!(inline.footnote_refs[0].byte_offset, 8);
    assert_eq!(check_well_formed(&inline.runs, inline.plain_text.len()), Ok(()));
}

#[test]
fn a_presentation_changes_the_text_and_the_plain_view_does_not() {
    let shown = PlainTextExportOptions::presentation();
    assert!(shown.quote_indent && shown.page_breaks);
    assert!(!PlainTextExportOptions::addressable().quote_indent);
}
