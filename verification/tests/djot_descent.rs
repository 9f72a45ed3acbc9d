use text_document::parser_tools::content_parser::{parse_djot, ParsedElement};
use text_document::parser_tools::djot::{can_be_parsed, has_fitting_headings};
use text_document::parser_tools::djot_depth::{is_too_deep, nesting_depth};
use text_document::parser_tools::djot_descent::{
    goes_too_far, MAX_CONTAINERS, MAX_PENDING_LINES,
};
use text_document::parser_tools::{
    count_djot, djot_round_trip_is_lossy, djot_to_plain_text, CountMethod, DjotImportOptions,
};

fn elements(djot: &str) -> Vec<ParsedElement> {
    parse_djot(djot, &DjotImportOptions::default())
}

/// Whether a document came back as its source, in one paragraph.
fn is_verbatim(djot: &str) -> bool {
    match elements(djot).as_slice() {
        [ParsedElement::Block(block)] => {
            block.spans.len() == 1 && block.spans[0].text == djot && block.list_style.is_none()
        }
        _ => false,
    }
}

#[test]
fn list_markers_are_no_nesting_by_the_count() {
    assert_eq!(nesting_depth("- x"), 0);
    assert_eq!(nesting_depth("[^a]:x"), 0);
    assert_eq!(nesting_depth("> - x"), 1);
    assert_eq!(nesting_depth("- > x"), 0);
    for marker in ["- ", "* ", "1. ", "(iv) ", "- [ ] ", ": ", "[^a]:"] {
        let deep = format!("{}y", marker.repeat(97));
        assert_eq!(nesting_depth(&deep), 0, "{marker:?}");
        assert!(!is_too_deep(&deep), "{marker:?}");
        assert!(!is_verbatim(&deep), "{marker:?}");
    }
    let quoted = format!("{}y", "> ".repeat(97));
    assert!(is_too_deep(&quoted) && is_verbatim(&quoted));
}

#[test]
fn containers_opened_on_one_line_add_up() {
    for marker in ["- ", "* ", "1. ", "(iv) ", "- [ ] ", ": ", "[^a]:"] {
        let fits = format!("{}y", marker.repeat(MAX_CONTAINERS));
        assert!(!goes_too_far(&fits) && can_be_parsed(&fits), "{marker:?}");
        assert!(!is_verbatim(&fits), "{marker:?}");
        let far = format!("{}y", marker.repeat(MAX_CONTAINERS + 1));
        assert!(goes_too_far(&far) && !can_be_parsed(&far), "{marker:?}");
        assert!(!is_too_deep(&far), "{marker:?}");
    }
    for marker in ["- ", "[^a]:", "> "] {
        assert!(goes_too_far(&format!("{}x", marker.repeat(40_000))));
    }
}

#[test]
fn markers_within_a_line_open_nothing() {
    let prose = format!("x{}", " - > 1. [^a]:".repeat(500));
    assert_eq!(nesting_depth(&prose), 0);
    assert!(!is_too_deep(&prose) && can_be_parsed(&prose));
    assert!(can_be_parsed(&format!("{}end", "No. Yes. ".repeat(300))));
}

#[test]
fn nesting_follows_the_markers() {
    for n in [0, 1, 2, 7, 200] {
        assert_eq!(nesting_depth(&format!("{}x", ">".repeat(n))), n);
        assert_eq!(nesting_depth(&format!("{}x", " ".repeat(n))), n / 2);
        assert_eq!(nesting_depth(&"::: a\n".repeat(n)), n);
        assert_eq!(
            nesting_depth(&"::: note\nbody\n:::\n".repeat(n)),
            n.min(1)
        );
        assert_eq!(
            nesting_depth(&":::: outer\n::: inner\nbody\n:::\n::::\n".repeat(n)),
            2 * n.min(1)
        );
    }
}

#[test]
fn a_line_of_colons_need_not_close_a_div() {
    // Behind a blockquote marker.
    let quoted = "> ::: a\n".repeat(1_000);
    assert!(nesting_depth(&quoted) < 96 && goes_too_far(&quoted));
    // Within a code block.
    let coded = "::: a\n```\n:::\n```\n".repeat(1_000);
    assert!(nesting_depth(&coded) < 96 && goes_too_far(&coded));
    // Shorter than the fence that is open, so that it opens one itself.
    let shorter: String = (3..700).rev().map(|n| ":".repeat(n) + "\n").collect();
    assert!(nesting_depth(&shorter) < 96 && goes_too_far(&shorter));
}

#[test]
fn divs_that_are_closed_do_not_add_up() {
    for unit in [
        "::: note\nbody\n:::\n",
        ":::: outer\n::: inner\nbody\n:::\n::::\n",
        "> ::: note\n> body\n> :::\n\n",
        "- ::: note\n  body\n  :::\n\n",
        "::: note\n\n```\n:::\n```\n\n:::\n\n",
        "> ::: note\n> never closed\n\n",
    ] {
        let many = unit.repeat(1_000);
        assert!(!is_too_deep(&many) && can_be_parsed(&many), "{unit:?}");
    }
}

#[test]
fn the_parser_bears_what_is_let_through() {
    let divs = "> ::: a\n".repeat(MAX_CONTAINERS - 1);
    assert!(!is_too_deep(&divs) && can_be_parsed(&divs));
    assert!(!is_verbatim(&divs));
    let lines = format!("*a{}", "\nb".repeat(MAX_PENDING_LINES - 1));
    assert!(!is_too_deep(&lines) && can_be_parsed(&lines));
    assert_eq!(elements(&lines).len(), 1);
    let more = format!("*a{}", "\nb".repeat(MAX_PENDING_LINES));
    assert!(!is_too_deep(&more) && goes_too_far(&more));
}

#[test]
fn long_runs_of_lines_are_read_where_no_paragraph_is_long() {
    for unit in [
        "plain words, don't they say\n",
        "- an *item*\n",
        "1. an \"item\"\n",
        "| a *cell* | \"b\" |\n",
        "> a *quote*\n>\n",
        "a *paragraph*\n\n",
    ] {
        let long = unit.repeat(2_000);
        assert!(!is_too_deep(&long) && can_be_parsed(&long), "{unit:?}");
        assert!(!is_verbatim(&long), "{unit:?}");
    }
    let code = format!("```\n{}```\n\nafter\n", "let s = \"[x]\";\n".repeat(2_000));
    assert!(!is_too_deep(&code) && can_be_parsed(&code));
    assert_eq!(elements(&code).len(), 2);
    // A paragraph takes in the markers that follow it.
    let taken = format!("a *paragraph\n{}", "- no item\n".repeat(2_000));
    assert!(goes_too_far(&taken));
}

#[test]
fn a_heading_can_begin_behind_the_front_of_a_line() {
    let hashes = "#".repeat(65_536);
    for front in ["", "  ", "> ", "- ", "1. ", "[^a]:", "[^a]: > - ", "- [x] "] {
        assert!(
            !has_fitting_headings(&format!("text\n\n{front}{hashes} x")),
            "{front:?}"
        );
        assert!(has_fitting_headings(&format!("{front}{} x", "#".repeat(65_535))));
    }
    for text in [
        format!("x {hashes} y"),
        format!("{hashes}y"),
        format!(">{hashes} y"),
        format!("[a]: {hashes} y"),
        format!("1.{hashes} y"),
    ] {
        assert!(has_fitting_headings(&text));
    }
}

#[test]
fn hashes_within_a_line_are_read() {
    let options = DjotImportOptions::default();
    let text = format!("x {} y", "#".repeat(70_000));
    assert_eq!(djot_to_plain_text(&text, &options), text);
    assert_eq!(count_djot(&text, CountMethod::WhitespaceSplit).words, 3);
    assert!(!djot_round_trip_is_lossy(&text));
    assert_eq!(elements(&format!("[^a]:{} x", "#".repeat(65_535))).len(), 1);
}
