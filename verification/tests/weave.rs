use text_document::format_runs::{
    addressable_inline_pieces, block_anchors, coalesce_in_place, debug_assert_well_formed,
    inline_segments_view, merge_runs_and_anchors, shift_after, splice_range,
    AddressableInlinePiece, CharacterFormat, FootnoteRefAnchor, FormatRun, ImageAnchor,
    InlineContent, InlinePiece,
};

fn run(s: u32, e: u32, bold: bool) -> FormatRun {
    FormatRun {
        byte_start: s,
        byte_end: e,
        format: CharacterFormat {
            font_bold: Some(bold),
            ..Default::default()
        },
    }
}

#[test]
fn empty_runs_are_well_formed() {
    debug_assert_well_formed(&[], 0);
    debug_assert_well_formed(&[], 100);
}

fn anchor(at: u32, name: &str) -> ImageAnchor {
    ImageAnchor {
        byte_offset: at,
        name: name.into(),
        alt: String::new(),
        width: 10,
        height: 10,
        quality: 100,
        format: CharacterFormat::default(),
    }
}

fn fn_anchor(at: u32, label: &str) -> FootnoteRefAnchor {
    FootnoteRefAnchor {
        byte_offset: at,
        label: label.into(),
        format: CharacterFormat::default(),
    }
}

fn shape(text: &str, runs: &[FormatRun], images: &[ImageAnchor]) -> String {
    shape_with(text, runs, images, &[])
}

fn shape_with(
    text: &str,
    runs: &[FormatRun],
    images: &[ImageAnchor],
    notes: &[FootnoteRefAnchor],
) -> String {
    merge_runs_and_anchors(text, runs, &block_anchors(images, notes))
        .into_iter()
        .map(|p| match p {
            InlinePiece::Text { start, end, format } => {
                let s = &text[start as usize..end as usize];
                if format.is_some() {
                    format!("*{s}*")
                } else {
                    s.to_string()
                }
            }
            InlinePiece::Image(a) => format!("[{}]", a.name),
            InlinePiece::FootnoteRef(a) => format!("^{}^", a.label),
        })
        .collect::<Vec<_>>()
        .join("|")
}

#[test]
fn a_footnote_reference_inside_a_run_splits_it() {
    let text = "abcdef";
    let runs = [run(0, 6, true)];
    assert_eq!(
        shape_with(text, &runs, &[], &[fn_anchor(3, "n1")]),
        "*abc*|^n1^|*def*"
    );
}

#[test]
fn images_and_references_interleave_by_position() {
    let text = "abcdefgh";
    assert_eq!(
        shape_with(
            text,
            &[],
            &[anchor(6, "img")],
            &[fn_anchor(2, "early"), fn_anchor(7, "late")]
        ),
        "ab|^early^|cdef|[img]|g|^late^|h"
    );
}

#[test]
fn an_image_inside_a_run_splits_it_instead_of_jumping_to_the_end() {
    let text = "abcdef";
    let runs = [run(0, 6, true)];
    let images = [anchor(3, "img")];
    assert_eq!(shape(text, &runs, &images), "*abc*|[img]|*def*");
}

#[test]
fn an_image_on_a_run_start_boundary_stays_in_place() {
    let text = "abcdef";
    let runs = [run(3, 6, true)];
    assert_eq!(shape(text, &runs, &[anchor(3, "i")]), "abc|[i]|*def*");
}

#[test]
fn an_image_on_a_run_end_boundary_stays_in_place() {
    let text = "abcdef";
    let runs = [run(0, 3, true)];
    assert_eq!(shape(text, &runs, &[anchor(3, "i")]), "*abc*|[i]|def");
}

#[test]
fn an_image_between_two_runs_lands_between_them() {
    let text = "abcdef";
    let runs = [run(0, 3, true), run(3, 6, false)];
    let out = shape(text, &runs, &[anchor(3, "i")]);
    assert_eq!(out, "*abc*|[i]|*def*");
}

#[test]
fn several_images_inside_one_run_keep_their_order() {
    let text = "abcdefgh";
    let runs = [run(0, 8, true)];
    let images = [anchor(2, "a"), anchor(5, "b")];
    assert_eq!(shape(text, &runs, &images), "*ab*|[a]|*cde*|[b]|*fgh*");
}

#[test]
fn two_images_at_the_same_offset_both_survive_in_order() {
    let text = "abcd";
    let runs = [run(0, 4, true)];
    let images = [anchor(2, "a"), anchor(2, "b")];
    assert_eq!(shape(text, &runs, &images), "*ab*|[a]|[b]|*cd*");
}

#[test]
fn images_with_no_runs_at_all_are_ordered_with_their_gaps() {
    let text = "abcdef";
    let images = [anchor(0, "a"), anchor(3, "b"), anchor(6, "c")];
    assert_eq!(shape(text, &[], &images), "[a]|abc|[b]|def|[c]");
}

#[test]
fn text_uncovered_by_any_run_stays_unformatted() {
    let text = "abcdef";
    let runs = [run(2, 4, true)];
    assert_eq!(shape(text, &runs, &[]), "ab|*cd*|ef");
}

#[test]
fn a_block_with_neither_runs_nor_images_is_one_plain_piece() {
    assert_eq!(shape("abc", &[], &[]), "abc");
    assert_eq!(shape("", &[], &[]), "");
}

#[test]
fn every_byte_is_emitted_exactly_once_and_in_order() {
    let text = "abcdefghij";
    let arrangements: [(&[FormatRun], &[ImageAnchor]); 6] = [
        (&[], &[]),
        (&[run(0, 10, true)], &[anchor(5, "m")]),
        (&[run(2, 5, true), run(5, 8, false)], &[anchor(5, "m")]),
        (&[run(2, 5, true)], &[anchor(0, "a"), anchor(10, "z")]),
        (&[run(0, 3, true), run(7, 10, true)], &[anchor(3, "m")]),
        (
            &[run(1, 4, true), run(4, 9, false)],
            &[anchor(1, "a"), anchor(4, "b"), anchor(9, "c")],
        ),
    ];
    for (i, (runs, images)) in arrangements.iter().enumerate() {
        let pieces = merge_runs_and_anchors(text, runs, &block_anchors(images, &[]));
        let mut cursor = 0u32;
        let mut rebuilt = String::new();
        for piece in &pieces {
            if let InlinePiece::Text { start, end, .. } = piece {
                assert_eq!(*start, cursor, "arrangement {i}: gap or overlap");
                assert!(start < end, "arrangement {i}: empty piece emitted");
                rebuilt.push_str(&text[*start as usize..*end as usize]);
                cursor = *end;
            }
        }
        assert_eq!(cursor, text.len() as u32, "arrangement {i}: truncated");
        assert_eq!(rebuilt, text, "arrangement {i}");
        let img_count = pieces
            .iter()
            .filter(|p| matches!(p, InlinePiece::Image(_)))
            .count();
        assert_eq!(img_count, images.len(), "arrangement {i}: lost an image");
    }
}

#[test]
fn inline_segments_view_places_a_mid_run_image_correctly() {
    let segs = inline_segments_view("abcdef", &[run(0, 6, true)], &[anchor(3, "img")], &[]);
    assert_eq!(segs.len(), 3);
    assert!(matches!(&segs[0].content, InlineContent::Text(t) if t == "abc"));
    assert!(matches!(&segs[1].content, InlineContent::Image { name, .. } if name == "img"));
    assert!(matches!(&segs[2].content, InlineContent::Text(t) if t == "def"));
    assert_eq!(segs[0].fmt_font_bold, Some(true));
    assert_eq!(segs[2].fmt_font_bold, Some(true));
}

#[test]
fn inline_segments_view_carries_alt_text_through() {
    let mut a = anchor(1, "img");
    a.alt = "a black cat".into();
    let segs = inline_segments_view("ab", &[], &[a], &[]);
    let alt = segs.iter().find_map(|s| match &s.content {
        InlineContent::Image { alt, .. } => Some(alt.clone()),
        _ => None,
    });
    assert_eq!(alt.as_deref(), Some("a black cat"));
}

fn pieces_shape(out: &[AddressableInlinePiece]) -> Vec<(u32, u32, String)> {
    out.iter()
        .map(|p| {
            let label = match &p.content {
                InlineContent::Text(t) => t.clone(),
                InlineContent::Image { name, .. } => format!("[{name}]"),
                InlineContent::FootnoteRef { label } => format!("^{label}^"),
                InlineContent::Empty => String::new(),
            };
            (p.start, p.end, label)
        })
        .collect()
}

#[test]
fn a_lone_text_piece_spans_its_char_length() {
    let out = addressable_inline_pieces("hello", &[], &[], 0);
    assert_eq!(pieces_shape(&out), vec![(0, 5, "hello".to_string())]);
}

#[test]
fn base_char_offset_shifts_every_piece_by_the_same_amount() {
    let out = addressable_inline_pieces("hello", &[], &[], 100);
    assert_eq!(pieces_shape(&out), vec![(100, 105, "hello".to_string())]);
}

#[test]
fn a_multibyte_character_before_an_image_does_not_leak_its_extra_byte_into_the_char_position() {
    let text = "café";
    assert_eq!(text.len(), 5, "test assumes café is 5 bytes");
    assert_eq!(text.chars().count(), 4, "test assumes café is 4 chars");
    let images = [anchor(5, "pic")];
    let anchors = block_anchors(&images, &[]);
    let out = addressable_inline_pieces(text, &[], &anchors, 0);
    assert_eq!(
        pieces_shape(&out),
        vec![(0, 4, "café".to_string()), (4, 5, "[pic]".to_string())]
    );
}

#[test]
fn an_image_mid_run_gets_a_one_char_span_and_the_trailing_text_resumes_right_after_it() {
    let text = "abcdef";
    let runs = [run(0, 6, true)];
    let images = [anchor(3, "img")];
    let anchors = block_anchors(&images, &[]);
    let out = addressable_inline_pieces(text, &runs, &anchors, 0);
    assert_eq!(
        pieces_shape(&out),
        vec![
            (0, 3, "abc".to_string()),
            (3, 4, "[img]".to_string()),
            (4, 7, "def".to_string()),
        ]
    );
}

#[test]
fn a_footnote_reference_gets_a_one_char_span_too() {
    let text = "abcdef";
    let notes = [fn_anchor(3, "n1")];
    let anchors = block_anchors(&[], &notes);
    let out = addressable_inline_pieces(text, &[], &anchors, 0);
    assert_eq!(
        pieces_shape(&out),
        vec![
            (0, 3, "abc".to_string()),
            (3, 4, "^n1^".to_string()),
            (4, 7, "def".to_string()),
        ]
    );
}

#[test]
fn pieces_are_contiguous_in_char_space_with_no_gaps_or_overlaps() {
    let text = "abcdefghij";
    let arrangements: [(&[FormatRun], &[ImageAnchor]); 4] = [
        (&[], &[]),
        (&[run(0, 10, true)], &[anchor(5, "m")]),
        (&[run(2, 5, true), run(5, 8, false)], &[anchor(5, "m")]),
        (&[run(1, 4, true), run(4, 9, false)], &[anchor(9, "c")]),
    ];
    for (i, (runs, images)) in arrangements.iter().enumerate() {
        let anchors = block_anchors(images, &[]);
        let out = addressable_inline_pieces(text, runs, &anchors, 7);
        let mut cursor = 7u32;
        for piece in &out {
            assert_eq!(piece.start, cursor, "arrangement {i}: gap or overlap");
            assert!(piece.start < piece.end, "arrangement {i}: empty piece");
            cursor = piece.end;
        }
        assert_eq!(
            cursor,
            7 + text.chars().count() as u32 + images.len() as u32,
            "arrangement {i}: did not tile the whole block"
        );
    }
}

#[test]
fn coalesce_merges_adjacent_equal_runs() {
    let mut rs = vec![run(0, 5, true), run(5, 10, true), run(10, 15, false)];
    coalesce_in_place(&mut rs);
    assert_eq!(rs.len(), 2);
    assert_eq!(rs[0].byte_end, 10);
}

#[test]
fn coalesce_leaves_disjoint_runs_alone() {
    let mut rs = vec![run(0, 5, true), run(7, 10, true)];
    coalesce_in_place(&mut rs);
    assert_eq!(rs.len(), 2);
}

#[test]
fn splice_range_clips_straddling_runs() {
    let mut rs = vec![run(0, 20, true)];
    splice_range(&mut rs, 5..15, vec![run(5, 15, false)]);
    assert_eq!(rs.len(), 3);
    assert_eq!(rs[0].byte_end, 5);
    assert_eq!(rs[1].format.font_bold, Some(false));
    assert_eq!(rs[2].byte_start, 15);
}

#[test]
fn splice_range_empty_replacement_removes_inner_runs() {
    let mut rs = vec![run(0, 5, true), run(5, 10, false), run(10, 15, true)];
    splice_range(&mut rs, 5..10, vec![]);
    assert_eq!(rs.len(), 2);
    assert_eq!(rs[0].byte_end, 5);
    assert_eq!(rs[1].byte_start, 10);
}

#[test]
fn shift_after_moves_downstream() {
    let mut rs = vec![run(0, 5, true), run(10, 15, false)];
    shift_after(&mut rs, 5, 3);
    assert_eq!(rs[0].byte_start, 0);
    assert_eq!(rs[1].byte_start, 13);
    assert_eq!(rs[1].byte_end, 18);
}
