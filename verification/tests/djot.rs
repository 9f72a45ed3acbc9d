use text_document::entities::{Alignment, ListStyle, MarkerType, SemanticRole, TextDirection};
use text_document::parser_tools::content_parser::{
    djot_to_plain_text, parse_djot, ParsedBlock, ParsedElement, ParsedSpan, ParsedTable,
};
use text_document::parser_tools::DjotImportOptions;

fn blocks(d: &str) -> Vec<ParsedBlock> {
    ParsedElement::flatten_to_blocks(parse_djot(d, &DjotImportOptions::default()))
}

fn first_span_with(b: &ParsedBlock, pred: impl Fn(&ParsedSpan) -> bool) -> &ParsedSpan {
    b.spans.iter().find(|s| pred(s)).expect("span not found")
}

#[test]
fn paragraph_bold_italic() {
    let b = blocks("normal *bold* _italic_");
    assert_eq!(b.len(), 1);
    assert!(first_span_with(&b[0], |s| s.text == "bold").bold);
    assert!(first_span_with(&b[0], |s| s.text == "italic").italic);
}

#[test]
fn heading_levels() {
    assert_eq!(blocks("# H1")[0].heading_level, Some(1));
    assert_eq!(blocks("### H3")[0].heading_level, Some(3));
    assert_eq!(blocks("###### H6")[0].heading_level, Some(6));
}

#[test]
fn unordered_bullet_styles_are_distinct() {
    assert_eq!(blocks("- a")[0].list_style, Some(ListStyle::Disc));
    assert_eq!(blocks("* a")[0].list_style, Some(ListStyle::Circle));
    assert_eq!(blocks("+ a")[0].list_style, Some(ListStyle::Square));
}

#[test]
fn ordered_delimiters() {
    let period = blocks("1. a");
    assert_eq!(period[0].list_style, Some(ListStyle::Decimal));
    assert_eq!(period[0].list_prefix, "");
    assert_eq!(period[0].list_suffix, ".");

    let paren = blocks("1) a");
    assert_eq!(paren[0].list_suffix, ")");
    assert_eq!(paren[0].list_prefix, "");

    let paren_paren = blocks("(1) a");
    assert_eq!(paren_paren[0].list_prefix, "(");
    assert_eq!(paren_paren[0].list_suffix, ")");
}

#[test]
fn task_list_markers() {
    let b = blocks("- [ ] a\n- [x] b");
    assert_eq!(b.len(), 2);
    assert_eq!(b[0].marker, Some(MarkerType::Unchecked));
    assert_eq!(b[1].marker, Some(MarkerType::Checked));
}

#[test]
fn code_block_with_language() {
    let b = blocks("```rust\nfn main() {}\n```");
    assert_eq!(b.len(), 1);
    assert!(b[0].is_code_block);
    assert_eq!(b[0].code_language.as_deref(), Some("rust"));
    let text: String = b[0].spans.iter().map(|s| s.text.as_str()).collect();
    assert_eq!(text, "fn main() {}");
}

#[test]
fn link_href() {
    let b = blocks("[text](http://example.com)");
    let s = first_span_with(&b[0], |s| s.text == "text");
    assert_eq!(s.link_href.as_deref(), Some("http://example.com"));
}

#[test]
fn superscript_subscript() {
    assert!(first_span_with(&blocks("a^b^")[0], |s| s.text == "b").superscript);
    assert!(first_span_with(&blocks("a~b~")[0], |s| s.text == "b").subscript);
}

#[test]
fn delete_insert_verbatim() {
    assert!(first_span_with(&blocks("{-x-}")[0], |s| s.text == "x").strikeout);
    assert!(first_span_with(&blocks("{+x+}")[0], |s| s.text == "x").underline);
    assert!(first_span_with(&blocks("`x`")[0], |s| s.text == "x").code);
}

#[test]
fn blockquote_depth() {
    let els = parse_djot("> quoted", &DjotImportOptions::default());
    match &els[0] {
        ParsedElement::Block(b) => assert_eq!(b.blockquote_depth, 1),
        _ => panic!("expected block"),
    }
}

#[test]
fn nested_list_indent() {
    let b = blocks("- a\n\n  - b\n\n    - c");
    assert_eq!(b.len(), 3);
    assert_eq!(b[0].list_indent, 0);
    assert_eq!(b[1].list_indent, 1);
    assert_eq!(b[2].list_indent, 2);
}

#[test]
fn table_parsed_as_table() {
    let els = parse_djot(
        "| a | b |\n|---|---|\n| c | d |",
        &DjotImportOptions::default(),
    );
    assert_eq!(els.len(), 1);
    match &els[0] {
        ParsedElement::Table(t) => {
            assert_eq!(t.header_rows, 1);
            assert_eq!(t.rows.len(), 2);
            assert_eq!(t.rows[0][0].spans[0].text, "a");
            assert_eq!(t.rows[1][1].spans[0].text, "d");
        }
        _ => panic!("expected table"),
    }
}

#[test]
fn smart_punctuation_normalised_to_unicode() {
    let text: String = blocks("a... b---c")[0]
        .spans
        .iter()
        .map(|s| s.text.as_str())
        .collect();
    assert!(text.contains('\u{2026}'), "ellipsis: {text:?}");
    assert!(text.contains('\u{2014}'), "em dash: {text:?}");
}

#[test]
fn unrepresentable_constructs_dropped_without_leaking_text() {
    let b = blocks("para1\n\n---\n\npara2");
    assert_eq!(b.len(), 2);
    assert_eq!(
        b[0].spans
            .iter()
            .map(|s| s.text.as_str())
            .collect::<String>(),
        "para1"
    );
    assert_eq!(
        b[1].spans
            .iter()
            .map(|s| s.text.as_str())
            .collect::<String>(),
        "para2"
    );

    let d = blocks(":::\ninside\n:::");
    let joined: String = d
        .iter()
        .flat_map(|b| b.spans.iter())
        .map(|s| s.text.as_str())
        .collect();
    assert_eq!(joined, "inside");

    let m = blocks("before $`E=mc^2` after");
    let joined: String = m
        .iter()
        .flat_map(|b| b.spans.iter())
        .map(|s| s.text.as_str())
        .collect();
    assert!(joined.contains("before"), "{joined:?}");
    assert!(joined.contains("after"), "{joined:?}");
    assert!(!joined.contains("E=mc"), "math leaked: {joined:?}");
}

#[test]
fn empty_document_yields_one_empty_block() {
    let b = blocks("");
    assert_eq!(b.len(), 1);
    assert!(b[0].spans.iter().all(|s| s.text.is_empty()));
}

#[test]
fn block_attributes_parse_into_block() {
    let b = blocks(
        "{alignment=center line_height=1500 direction=rtl non_breakable_lines=true background_color=\"#ff0000\"}\nhello",
    );
    assert_eq!(b.len(), 1);
    assert_eq!(b[0].alignment, Some(Alignment::Center));
    assert_eq!(b[0].line_height, Some(1500));
    assert_eq!(b[0].direction, Some(TextDirection::RightToLeft));
    assert_eq!(b[0].non_breakable_lines, Some(true));
    assert_eq!(b[0].background_color, Some("#ff0000".to_string()));
}

#[test]
fn spacing_block_attributes_parse_into_block() {
    let b = blocks("{top_margin=24 text_indent=0}\nhello");
    assert_eq!(b.len(), 1);
    assert_eq!(b[0].top_margin, Some(24));
    assert_eq!(b[0].text_indent, Some(0));
}

#[test]
fn a_zero_text_indent_is_distinct_from_an_absent_one() {
    let explicit = blocks("{text_indent=0}\nhello");
    let absent = blocks("hello");
    assert_eq!(explicit[0].text_indent, Some(0));
    assert_eq!(absent[0].text_indent, None);
    assert!(!explicit[0].is_inline_only());
    assert!(absent[0].is_inline_only());
}

#[test]
fn spacing_block_attributes_respect_import_options() {
    let src = "{top_margin=24 text_indent=0}\nhello";
    let b = ParsedElement::flatten_to_blocks(parse_djot(src, &DjotImportOptions::none()));
    assert_eq!(b[0].top_margin, None);
    assert_eq!(b[0].text_indent, None);
}

#[test]
fn block_attributes_on_heading() {
    let b = blocks("{alignment=right}\n# Title");
    assert_eq!(b[0].heading_level, Some(1));
    assert_eq!(b[0].alignment, Some(Alignment::Right));
}

#[test]
fn block_attributes_respect_import_options() {
    let src = "{alignment=center line_height=1500}\nhello";
    let b = ParsedElement::flatten_to_blocks(parse_djot(src, &DjotImportOptions::none()));
    assert_eq!(b[0].alignment, None);
    assert_eq!(b[0].line_height, None);
    assert_eq!(
        b[0].spans
            .iter()
            .map(|s| s.text.as_str())
            .collect::<String>(),
        "hello"
    );
}

#[test]
fn list_item_block_attributes_are_dropped() {
    let b = blocks("{alignment=center}\n- item");
    assert!(b.iter().all(|blk| blk.alignment.is_none()));
}

#[test]
fn unknown_alignment_value_is_ignored() {
    let b = blocks("{alignment=sideways}\nhello");
    assert_eq!(b[0].alignment, None);
}
