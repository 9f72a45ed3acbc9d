use text_document::entities::Alignment;
use text_document::parser_tools::content_parser::{djot_to_plain_text, parse_djot, ParsedElement};
use text_document::parser_tools::docx_options::{DocxExportOptions, DocxHeadingStyle};
use text_document::parser_tools::mark_options::bad_char_report;
use text_document::parser_tools::odt_options::{OdtExportOptions, OdtHeadingStyle};
use text_document::parser_tools::{
    markdown_page_break, CommentReply, DjotExportOptions, DjotImportOptions, DocumentComment,
    DocumentComments, DocumentMark, DocumentMarks, EpubExportOptions, ExportImage, ExportImages,
    LatexExportOptions, MarkdownExportOptions, PlainTextExportOptions, FORM_FEED,
    HTML_PAGE_BREAK_STYLE,
};

#[test]
fn the_heading_ramp_scales_off_the_body_size() {
    let sizes = |body| -> Vec<usize> {
        DocxHeadingStyle::default_ramp(body)
            .iter()
            .map(|s| s.size_half_points.unwrap())
            .collect()
    };
    assert_eq!(sizes(24), vec![43, 36, 30, 26, 24, 24]);
    assert_eq!(sizes(22), vec![40, 33, 28, 24, 22, 22]);
    assert_eq!(sizes(0), vec![2, 2, 2, 2, 2, 2]);
    // Single precision: 16777217 is not a number of 24 bits.
    assert_eq!(sizes(16777217)[5], 16777216);
    for body in [0, 1, 7, 24, 1_000_003, usize::MAX] {
        let scaled: Vec<usize> = [1.8f32, 1.5, 1.25, 1.1, 1.0, 1.0]
            .iter()
            .map(|scale| ((body as f32 * scale).round() as usize).max(2))
            .collect();
        assert_eq!(sizes(body), scaled, "{body}");
        assert!(sizes(body).windows(2).all(|w| w[0] >= w[1]), "{body}");
    }
    let ramp = DocxHeadingStyle::default_ramp(24);
    assert_eq!(ramp[0].space_before_twips, Some(480));
    assert_eq!(ramp[3].space_after_twips, Some(120));
    assert!(ramp[5].italic && !ramp[4].italic);
    assert!(ramp.iter().all(|s| s.bold && s.keep_with_next));
    assert_eq!(OdtHeadingStyle::default_ramp(24).len(), 6);
}

#[test]
fn plain_options_override_nothing() {
    assert_eq!(DocxExportOptions::plain(), DocxExportOptions::default());
    assert_eq!(OdtExportOptions::plain(), OdtExportOptions::default());
    assert_eq!(DocxExportOptions::plain().resolved_heading_styles().len(), 6);
    assert_eq!(OdtExportOptions::plain().resolved_heading_styles().len(), 6);
    assert_eq!(
        PlainTextExportOptions::addressable(),
        PlainTextExportOptions::default()
    );
    assert_eq!(
        MarkdownExportOptions::default(),
        MarkdownExportOptions {
            page_breaks: false,
            omit_images: false
        }
    );
    let latex = LatexExportOptions::default();
    assert_eq!(latex.document_class, "");
    assert!(!latex.include_preamble && !latex.omit_images);
    let epub = EpubExportOptions::default();
    assert_eq!((epub.title.as_str(), epub.author.as_str()), ("Untitled", ""));
    assert_eq!((epub.language.as_str(), epub.rtl), ("en", false));
}

#[test]
fn djot_options_are_all_on_by_default() {
    assert_eq!(DjotImportOptions::default(), DjotImportOptions::all());
    assert_eq!(DjotExportOptions::default(), DjotExportOptions::all());
    assert_ne!(DjotImportOptions::none(), DjotImportOptions::all());
    assert_ne!(DjotExportOptions::none(), DjotExportOptions::all());
}

#[test]
fn a_page_break_is_a_block_of_raw_html() {
    assert_eq!(
        markdown_page_break(),
        format!("<div style=\"{HTML_PAGE_BREAK_STYLE}\"></div>")
    );
    assert_eq!(FORM_FEED, '\u{c}');
}

#[test]
fn a_mark_report_shows_the_bad_character() {
    assert_eq!(
        DocumentMark::point(0, "row\n1").validate(),
        Err(
            "mark name 'row\n1' contains '\\n'; only ASCII letters, digits and underscore \
             survive both formats"
                .to_string()
        )
    );
    assert_eq!(
        DocumentMark::range(7, 3, "x").validate(),
        Err("mark 'x' ends (3) before it starts (7)".to_string())
    );
    assert_eq!(
        DocumentMark::point(0, "_TOC").validate(),
        Err("mark name '_TOC' is reserved by Word, which rewrites it on save".to_string())
    );
    assert_eq!(
        bad_char_report("a-b", "'-'"),
        "mark name 'a-b' contains '-'; only ASCII letters, digits and underscore survive both \
         formats"
    );
    assert_eq!(DocumentMarks::new().validate(), Ok(()));
    assert!(DocumentMarks::new().is_empty());
}

#[test]
fn registries_give_back_what_was_registered() {
    let mut images = ExportImages::new();
    assert!(images.is_empty());
    images.insert("b.png", ExportImage::new(vec![1], "image/png"));
    images.insert("a.svg", ExportImage::new(vec![2], "image/svg+xml"));
    images.insert("b.png", ExportImage::new(vec![3], "image/gif"));
    assert_eq!(images.len(), 2);
    assert_eq!(images.get("b.png").unwrap().bytes, vec![3]);
    assert!(images.get("c.png").is_none());
    let keys: Vec<&str> = images.iter().into_iter().map(|(k, _)| k.as_str()).collect();
    assert_eq!(keys, vec!["a.svg", "b.png"]);

    let mut comments = DocumentComments::new();
    assert!(comments.is_empty());
    comments.insert(DocumentComment {
        start: 4,
        end: 4,
        uid: "root".to_string(),
        author: "Author".to_string(),
        author_initials: "AU".to_string(),
        date: "2026-01-01T00:00:00Z".to_string(),
        resolved: true,
        body: "Body".to_string(),
        replies: vec![CommentReply {
            uid: "reply-1".to_string(),
            author: "Editor".to_string(),
            author_initials: "ED".to_string(),
            date: "2026-02-02T00:00:00Z".to_string(),
            body: "*Fixed.*".to_string(),
        }],
    });
    let found = comments.get("root").unwrap();
    assert_eq!(found.replies[0].body, "*Fixed.*");
    assert_eq!(found.clone(), *found);
    assert!(comments.get("reply-1").is_none());
}

#[test]
fn import_options_gate_styles_and_nothing_else() {
    let djot = "{alignment=center line-height=1500}\nHello *you*\n\n- one\n- two\n\n| a |\n\nx[^n]\n\n[^n]: note";
    let shape = |options: &DjotImportOptions| -> Vec<String> {
        parse_djot(djot, options)
            .into_iter()
            .map(|element| match element {
                ParsedElement::Block(b) => format!("{:?} {:?}", b.spans, b.list_style),
                other => format!("{other:?}"),
            })
            .collect()
    };
    assert_eq!(
        shape(&DjotImportOptions::all()),
        shape(&DjotImportOptions::none())
    );
    let first = |options: &DjotImportOptions| match parse_djot(djot, options).remove(0) {
        ParsedElement::Block(block) => block,
        other => panic!("{other:?}"),
    };
    assert_eq!(first(&DjotImportOptions::all()).alignment, Some(Alignment::Center));
    assert_eq!(first(&DjotImportOptions::none()).alignment, None);
}

#[test]
fn what_djot_cannot_hold_leaves_no_text() {
    let text = |djot: &str| djot_to_plain_text(djot, &DjotImportOptions::default());
    assert_eq!(text("a $`x^2` b :smile: c"), "a  b  c");
    assert_eq!(text("``` =html\n<b>raw</b>\n```\n\nkept"), "kept");
    assert_eq!(text("![alt text](cat.png)"), "\u{FFFC}");
}
