use text_document::entities::{ListStyle, TextDirection};
use text_document::format_runs::CharacterFormat;
use text_document::parser_tools::content_parser::{
    format_runs_from_spans, parse_block_styles, parse_html, parse_html_elements, parse_markdown,
    ParsedBlock, ParsedElement, ParsedSpan,
};

/// Reads a number and gives it back in thousandths.
fn milli(value: &str) -> Option<i64> {
    value.parse::<f64>().ok().map(|v| (v * 1000.0) as i64)
}

fn parse_markdown_blocks(md: &str) -> Vec<ParsedBlock> {
    ParsedElement::flatten_to_blocks(parse_markdown(md))
}

#[test]
fn test_parse_markdown_simple_paragraph() {
    let blocks = parse_markdown_blocks("Hello **world**");
    assert_eq!(blocks.len(), 1);
    assert!(blocks[0].spans.len() >= 2);
    let plain_span = blocks[0]
        .spans
        .iter()
        .find(|s| s.text.contains("Hello"))
        .unwrap();
    assert!(!plain_span.bold);
    let bold_span = blocks[0].spans.iter().find(|s| s.text == "world").unwrap();
    assert!(bold_span.bold);
}

#[test]
fn test_parse_markdown_heading() {
    let blocks = parse_markdown_blocks("# Title");
    assert_eq!(blocks.len(), 1);
    assert_eq!(blocks[0].heading_level, Some(1));
    assert_eq!(blocks[0].spans[0].text, "Title");
}

#[test]
fn test_parse_markdown_list() {
    let blocks = parse_markdown_blocks("- item1\n- item2");
    assert!(blocks.len() >= 2);
    assert_eq!(blocks[0].list_style, Some(ListStyle::Disc));
    assert_eq!(blocks[1].list_style, Some(ListStyle::Disc));
}

fn element_depths(elements: &[ParsedElement]) -> Vec<(bool, u32)> {
    elements
        .iter()
        .map(|e| match e {
            ParsedElement::Block(b) => (false, b.blockquote_depth),
            ParsedElement::Table(t) => (true, t.blockquote_depth),
            ParsedElement::FootnoteDefinition { .. } => (false, 0),
        })
        .collect()
}

#[test]
fn test_parse_markdown_table_in_blockquote_records_depth() {
    let elements = parse_markdown("> | a | b |\n> |---|---|\n> | c | d |");
    assert_eq!(element_depths(&elements), vec![(true, 1)]);
}

#[test]
fn test_parse_markdown_text_then_table_in_blockquote() {
    let elements = parse_markdown("> Para\n>\n> | a | b |\n> |---|---|\n> | c | d |");
    assert_eq!(element_depths(&elements), vec![(false, 1), (true, 1)]);
}

#[test]
fn test_parse_markdown_table_after_blockquote_closes() {
    let elements = parse_markdown("> Para\n\n| a | b |\n|---|---|\n| c | d |");
    assert_eq!(element_depths(&elements), vec![(false, 1), (true, 0)]);
}

#[test]
fn test_parse_markdown_table_in_nested_blockquote() {
    let elements = parse_markdown(">> | a | b |\n>> |---|---|\n>> | c | d |");
    assert_eq!(element_depths(&elements), vec![(true, 2)]);
}

#[test]
fn test_parse_markdown_list_in_blockquote_records_depth() {
    let elements = parse_markdown("> - item1\n> - item2");
    let depths = element_depths(&elements);
    assert_eq!(depths, vec![(false, 1), (false, 1)]);
    for e in &elements {
        if let ParsedElement::Block(b) = e {
            assert_eq!(b.list_style, Some(ListStyle::Disc));
        }
    }
}

#[test]
fn test_parse_html_table_in_blockquote_records_depth() {
    let elements = parse_html_elements("<blockquote><table><tr><th>A</th></tr><tr><td>x</td></tr></table></blockquote>", milli);
    assert_eq!(element_depths(&elements), vec![(true, 1)]);
}

#[test]
fn test_parse_html_table_after_blockquote() {
    let elements = parse_html_elements("<blockquote><p>Para</p></blockquote><table><tr><td>X</td></tr></table>", milli);
    let depths = element_depths(&elements);
    assert!(depths.contains(&(false, 1)), "depths: {depths:?}");
    assert!(depths.contains(&(true, 0)), "depths: {depths:?}");
}

#[test]
fn test_flatten_to_blocks_propagates_blockquote_depth() {
    let elements = parse_markdown("> | a | b |\n> |---|---|\n> | c | d |");
    let blocks = ParsedElement::flatten_to_blocks(elements);
    assert!(!blocks.is_empty());
    for b in &blocks {
        assert_eq!(b.blockquote_depth, 1);
    }
}

#[test]
fn test_parse_html_simple() {
    let blocks = parse_html("<p>Hello <b>world</b></p>", milli);
    assert_eq!(blocks.len(), 1);
    assert!(blocks[0].spans.len() >= 2);
    let bold_span = blocks[0].spans.iter().find(|s| s.text == "world").unwrap();
    assert!(bold_span.bold);
}

#[test]
fn test_parse_html_multiple_paragraphs() {
    let blocks = parse_html("<p>A</p><p>B</p>", milli);
    assert_eq!(blocks.len(), 2);
}

#[test]
fn test_parse_html_heading() {
    let blocks = parse_html("<h2>Subtitle</h2>", milli);
    assert_eq!(blocks.len(), 1);
    assert_eq!(blocks[0].heading_level, Some(2));
}

#[test]
fn test_parse_html_list() {
    let blocks = parse_html("<ul><li>one</li><li>two</li></ul>", milli);
    assert!(blocks.len() >= 2);
    assert_eq!(blocks[0].list_style, Some(ListStyle::Disc));
}

#[test]
fn test_parse_markdown_code_block() {
    let blocks = parse_markdown_blocks("```\nfn main() {}\n```");
    assert_eq!(blocks.len(), 1);
    assert!(blocks[0].is_code_block);
    assert!(blocks[0].spans[0].code);
    let text: String = blocks[0].spans.iter().map(|s| s.text.as_str()).collect();
    assert_eq!(
        text, "fn main() {}",
        "code block text should not have trailing newline"
    );
}

#[test]
fn test_parse_markdown_nested_formatting() {
    let blocks = parse_markdown_blocks("***bold italic***");
    assert_eq!(blocks.len(), 1);
    let span = &blocks[0].spans[0];
    assert!(span.bold);
    assert!(span.italic);
}

#[test]
fn test_parse_markdown_link() {
    let blocks = parse_markdown_blocks("[click](http://example.com)");
    assert_eq!(blocks.len(), 1);
    let span = &blocks[0].spans[0];
    assert_eq!(span.text, "click");
    assert_eq!(span.link_href, Some("http://example.com".to_string()));
}

#[test]
fn test_parse_markdown_empty() {
    let blocks = parse_markdown_blocks("");
    assert_eq!(blocks.len(), 1);
    assert!(blocks[0].spans[0].text.is_empty());
}

#[test]
fn test_parse_html_empty() {
    let blocks = parse_html("", milli);
    assert_eq!(blocks.len(), 1);
    assert!(blocks[0].spans[0].text.is_empty());
}

#[test]
fn test_parse_html_nested_formatting() {
    let blocks = parse_html("<p><b><i>bold italic</i></b></p>", milli);
    assert_eq!(blocks.len(), 1);
    let span = &blocks[0].spans[0];
    assert!(span.bold);
    assert!(span.italic);
}

#[test]
fn test_parse_html_link() {
    let blocks = parse_html("<p><a href=\"http://example.com\">click</a></p>", milli);
    assert_eq!(blocks.len(), 1);
    let span = &blocks[0].spans[0];
    assert_eq!(span.text, "click");
    assert_eq!(span.link_href, Some("http://example.com".to_string()));
}

#[test]
fn test_parse_html_ordered_list() {
    let blocks = parse_html("<ol><li>first</li><li>second</li></ol>", milli);
    assert!(blocks.len() >= 2);
    assert_eq!(blocks[0].list_style, Some(ListStyle::Decimal));
}

#[test]
fn test_parse_markdown_ordered_list() {
    let blocks = parse_markdown_blocks("1. first\n2. second");
    assert!(blocks.len() >= 2);
    assert_eq!(blocks[0].list_style, Some(ListStyle::Decimal));
}

#[test]
fn test_parse_html_blockquote_nested() {
    let blocks = parse_html("<p>before</p><blockquote>quoted</blockquote><p>after</p>", milli);
    assert!(blocks.len() >= 3);
}

#[test]
fn test_parse_block_styles_line_height() {
    let styles = parse_block_styles("line-height: 1.5", milli);
    assert_eq!(styles.line_height, Some(1500));
}

#[test]
fn test_parse_block_styles_direction_rtl() {
    let styles = parse_block_styles("direction: rtl", milli);
    assert_eq!(styles.direction, Some(TextDirection::RightToLeft));
}

#[test]
fn test_parse_block_styles_background_color() {
    let styles = parse_block_styles("background-color: #ff0000", milli);
    assert_eq!(styles.background_color, Some("#ff0000".to_string()));
}

#[test]
fn test_parse_block_styles_white_space_pre() {
    let styles = parse_block_styles("white-space: pre", milli);
    assert_eq!(styles.non_breakable_lines, Some(true));
}

#[test]
fn test_parse_block_styles_multiple() {
    let styles = parse_block_styles("line-height: 2.0; direction: rtl; background-color: blue", milli);
    assert_eq!(styles.line_height, Some(2000));
    assert_eq!(styles.direction, Some(TextDirection::RightToLeft));
    assert_eq!(styles.background_color, Some("blue".to_string()));
}

#[test]
fn test_parse_html_block_styles_extracted() {
    let blocks = parse_html(r#"<p style="line-height: 1.5; direction: rtl; background-color: #ccc">text</p>"#, milli);
    assert_eq!(blocks.len(), 1);
    assert_eq!(blocks[0].line_height, Some(1500));
    assert_eq!(blocks[0].direction, Some(TextDirection::RightToLeft));
    assert_eq!(blocks[0].background_color, Some("#ccc".to_string()));
}

#[test]
fn test_parse_html_white_space_pre() {
    let blocks = parse_html(r#"<p style="white-space: pre">code</p>"#, milli);
    assert_eq!(blocks.len(), 1);
    assert_eq!(blocks[0].non_breakable_lines, Some(true));
}

#[test]
fn test_parse_html_no_styles_returns_none() {
    let blocks = parse_html("<p>plain</p>", milli);
    assert_eq!(blocks.len(), 1);
    assert_eq!(blocks[0].line_height, None);
    assert_eq!(blocks[0].direction, None);
    assert_eq!(blocks[0].background_color, None);
    assert_eq!(blocks[0].non_breakable_lines, None);
}

#[test]
fn test_parse_markdown_nested_list_indent() {
    let md = "- top\n  - nested\n    - deep";
    let blocks = parse_markdown_blocks(md);
    assert_eq!(blocks.len(), 3);
    assert_eq!(blocks[0].list_style, Some(ListStyle::Disc));
    assert_eq!(blocks[0].list_indent, 0);
    assert_eq!(blocks[1].list_style, Some(ListStyle::Disc));
    assert_eq!(blocks[1].list_indent, 1);
    assert_eq!(blocks[2].list_style, Some(ListStyle::Disc));
    assert_eq!(blocks[2].list_indent, 2);
}

#[test]
fn test_parse_markdown_nested_ordered_list_indent() {
    let md = "1. first\n   1. nested\n   2. nested2";
    let blocks = parse_markdown_blocks(md);
    assert_eq!(blocks.len(), 3);
    assert_eq!(blocks[0].list_indent, 0);
    assert_eq!(blocks[1].list_indent, 1);
    assert_eq!(blocks[2].list_indent, 1);
}

#[test]
fn test_parse_html_nested_list_indent() {
    let html = "<ul><li>top</li><ul><li>nested</li></ul></ul>";
    let blocks = parse_html(html, milli);
    assert!(blocks.len() >= 2);
    assert_eq!(blocks[0].list_indent, 0);
    assert_eq!(blocks[1].list_indent, 1);
}

#[test]
fn test_parse_markdown_table() {
    let md = "| A | B |\n|---|---|\n| 1 | 2 |";
    let elements = parse_markdown(md);
    assert_eq!(elements.len(), 1);
    match &elements[0] {
        ParsedElement::Table(table) => {
            assert_eq!(table.header_rows, 1);
            assert_eq!(table.rows.len(), 2);
            assert_eq!(table.rows[0].len(), 2);
            assert_eq!(table.rows[0][0].spans[0].text, "A");
            assert_eq!(table.rows[0][1].spans[0].text, "B");
            assert_eq!(table.rows[1].len(), 2);
            assert_eq!(table.rows[1][0].spans[0].text, "1");
            assert_eq!(table.rows[1][1].spans[0].text, "2");
        }
        _ => panic!("Expected ParsedElement::Table"),
    }
}

#[test]
fn test_parse_markdown_table_with_formatting() {
    let md = "| **bold** | `code` | *italic* |\n|---|---|---|\n| ~~strike~~ | plain | [link](http://x.com) |";
    let elements = parse_markdown(md);
    assert_eq!(elements.len(), 1);
    match &elements[0] {
        ParsedElement::Table(table) => {
            assert_eq!(table.rows.len(), 2);
            assert!(table.rows[0][0].spans[0].bold);
            assert!(table.rows[0][1].spans[0].code);
            assert!(table.rows[0][2].spans[0].italic);
            assert!(table.rows[1][0].spans[0].strikeout);
            assert_eq!(
                table.rows[1][2].spans[0].link_href,
                Some("http://x.com".to_string())
            );
        }
        _ => panic!("Expected ParsedElement::Table"),
    }
}

#[test]
fn test_parse_markdown_mixed_content_with_table() {
    let md = "Before\n\n| A | B |\n|---|---|\n| 1 | 2 |\n\nAfter";
    let elements = parse_markdown(md);
    assert_eq!(elements.len(), 3);
    assert!(matches!(&elements[0], ParsedElement::Block(_)));
    assert!(matches!(&elements[1], ParsedElement::Table(_)));
    assert!(matches!(&elements[2], ParsedElement::Block(_)));
}
