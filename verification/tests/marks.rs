use text_document::parser_tools::mark_options::RESERVED_BOOKMARK_NAMES;
use text_document::parser_tools::{DocumentMark, DocumentMarks, MAX_BOOKMARK_NAME_LEN};

#[test]
fn a_point_mark_is_its_own_start_and_end() {
    let m = DocumentMark::point(12, "skrb_r0000000000000001_aaaaaaaaaaaa");
    assert!(m.is_point());
    assert_eq!((m.start, m.end), (12, 12));
    assert_eq!(m.validate(), Ok(()));
}

#[test]
fn a_range_mark_spans_characters() {
    let m = DocumentMark::range(4, 9, "skrb_c000000000000c001");
    assert!(!m.is_point());
    assert_eq!(m.validate(), Ok(()));
}

#[test]
fn a_name_word_would_mangle_is_refused_with_a_reason() {
    let too_long = DocumentMark::point(0, "a".repeat(MAX_BOOKMARK_NAME_LEN + 1));
    assert!(too_long.validate().unwrap_err().contains("41 characters"));

    let hyphenated = DocumentMark::point(0, "skrb-row-1");
    assert!(hyphenated.validate().unwrap_err().contains("only ASCII"));

    let leading_digit = DocumentMark::point(0, "1row");
    assert!(
        leading_digit
            .validate()
            .unwrap_err()
            .contains("begin with a letter")
    );

    assert!(
        DocumentMark::point(0, "")
            .validate()
            .unwrap_err()
            .contains("empty name")
    );
}

#[test]
fn marks_sharing_a_range_come_back_in_the_order_the_producer_stated() {
    let mut marks = DocumentMarks::default();
    marks.insert(DocumentMark::range(4, 9, "zzz_first").with_ordinal(0));
    marks.insert(DocumentMark::range(4, 9, "aaa_second").with_ordinal(1));

    let order: Vec<&str> = marks
        .in_document_order()
        .iter()
        .map(|m| m.name.as_str())
        .collect();
    assert_eq!(order, vec!["zzz_first", "aaa_second"]);
}

#[test]
fn marks_without_an_ordinal_still_fall_back_to_the_name() {
    let mut marks = DocumentMarks::default();
    marks.insert(DocumentMark::range(4, 9, "zzz"));
    marks.insert(DocumentMark::range(4, 9, "aaa"));

    let order: Vec<&str> = marks
        .in_document_order()
        .iter()
        .map(|m| m.name.as_str())
        .collect();
    assert_eq!(order, vec!["aaa", "zzz"]);
}

#[test]
fn a_name_word_reserves_for_itself_is_refused() {
    for name in RESERVED_BOOKMARK_NAMES {
        let err = DocumentMark::point(0, name)
            .validate()
            .expect_err("a reserved name must not validate");
        assert!(err.contains("reserved by Word"), "{name}: {err}");
    }
    assert!(
        DocumentMark::point(0, "_goback")
            .validate()
            .unwrap_err()
            .contains("reserved")
    );
    assert!(DocumentMark::point(0, "_Toc_skrb_r00").validate().is_ok());
}

#[test]
fn an_inverted_range_is_refused() {
    let m = DocumentMark::range(9, 4, "skrb_c000000000000c001");
    assert!(m.validate().unwrap_err().contains("ends (4) before"));
}

#[test]
fn marks_come_back_in_document_order_not_name_order() {
    let mut marks = DocumentMarks::new();
    marks.insert(DocumentMark::point(30, "zzz_later"));
    marks.insert(DocumentMark::point(10, "aaa_earlier"));
    marks.insert(DocumentMark::range(10, 20, "mmm_same_start"));

    let order: Vec<&str> = marks
        .in_document_order()
        .iter()
        .map(|m| m.name.as_str())
        .collect();
    assert_eq!(order, ["aaa_earlier", "mmm_same_start", "zzz_later"]);
}

#[test]
fn one_name_can_only_be_registered_once() {
    let mut marks = DocumentMarks::new();
    marks.insert(DocumentMark::point(
        10,
        "skrb_r0000000000000001_aaaaaaaaaaaa",
    ));
    marks.insert(DocumentMark::point(
        99,
        "skrb_r0000000000000001_aaaaaaaaaaaa",
    ));
    assert_eq!(marks.len(), 1, "a name is a key, not a label");
    assert_eq!(
        marks
            .get("skrb_r0000000000000001_aaaaaaaaaaaa")
            .map(|m| m.start),
        Some(99),
        "the later registration wins"
    );
}

#[test]
fn validation_reports_every_offender_at_once() {
    let mut marks = DocumentMarks::new();
    marks.insert(DocumentMark::point(0, "1bad"));
    marks.insert(DocumentMark::point(0, "also-bad"));
    marks.insert(DocumentMark::point(0, "fine_one"));
    let err = marks.validate().unwrap_err();
    assert!(err.contains("1bad"), "{err}");
    assert!(err.contains("also-bad"), "{err}");
    assert!(!err.contains("fine_one"), "{err}");
}
