use text_document::parser_tools::{
    djot_round_trip_is_lossy, djot_to_plain_text, guard_djot_block_start, needs_djot_escaping,
    plain_text_to_djot, DjotImportOptions,
};


#[test]
fn escaped_plain_text_parses_back_to_itself() {
    for original in [
        "plain prose, nothing special",
        "a *starred* word",
        "snake_case and more_snake_case",
        "code `backticks` here",
        "brackets [like this] and (parens)",
        "a title: The Lighthouse [Revised]",
        "# not a heading",
        "- not a list item",
        "1. not an ordered list",
        "12) also not an ordered list",
        "> not a quote",
        "+ not a list",
        ": not a definition",
        "a backslash \\ alone",
        "tilde ~sub~ and caret ^sup^",
        "braces {attr} and a pipe | here",
        "an angle <bracket>",
        "line one\nline two",
        "- leading marker\nand a second line",
        "1. first\n2. second\n3. third",
        "unicode — em dash, ellipsis …, quotes “ ”",
    ] {
        let djot = plain_text_to_djot(original);
        let round_tripped = djot_to_plain_text(&djot, &DjotImportOptions::default());
        assert_eq!(
            round_tripped, *original,
            "escaping {original:?} produced {djot:?}, which parsed back as \
             {round_tripped:?} — the escape is not round-trip safe"
        );
    }
}

#[test]
fn ordinary_prose_is_left_untouched() {
    for plain in [
        "Just an ordinary remark.",
        "Two sentences. Both ordinary!",
        "A question? Yes.",
        "",
    ] {
        assert_eq!(plain_text_to_djot(plain), plain);
        assert!(!needs_djot_escaping(plain), "{plain:?} needs no escaping");
    }
}

#[test]
fn text_with_markup_characters_is_reported_as_needing_escaping() {
    for plain in ["a *star*", "# heading-ish", "1. listish", "under_score"] {
        assert!(needs_djot_escaping(plain), "{plain:?} must need escaping");
    }
}

#[test]
fn a_blank_line_collapses_because_no_djot_can_produce_one() {
    let round_tripped =
        djot_to_plain_text(&plain_text_to_djot("a\n\nb"), &DjotImportOptions::default());
    assert_eq!(round_tripped, "a\nb");
}

#[test]
fn lossiness_is_not_detectable_by_string_comparison_alone() {
    assert!(
        !needs_djot_escaping("a\n\nb"),
        "the escape happens to reproduce the input byte-for-byte here"
    );
    assert!(
        djot_round_trip_is_lossy("a\n\nb"),
        "…but the round trip still loses the blank line, and a migration must be able \
         to see that"
    );
}

#[test]
fn trailing_whitespace_is_reported_as_lossy() {
    assert!(djot_round_trip_is_lossy("trailing spaces are content   "));
    assert!(!djot_round_trip_is_lossy("no trailing space"));
}

#[test]
fn a_multi_paragraph_comment_body_round_trips() {
    let body = "First paragraph of the note.\nA second one, with *emphasis* typed literally.";
    let djot = plain_text_to_djot(body);
    assert_eq!(
        djot_to_plain_text(&djot, &DjotImportOptions::default()),
        body
    );
}

#[test]
fn an_ordered_list_guard_escapes_the_delimiter_not_the_digit() {
    assert_eq!(guard_djot_block_start("1. text"), "1\\. text");
    assert_eq!(guard_djot_block_start("42) text"), "42\\) text");
}
