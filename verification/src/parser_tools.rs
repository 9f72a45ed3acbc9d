//! Readers of foreign text, and the options of those that write it.
use vstd::prelude::*;

pub mod comment_options;
pub mod content_parser;
pub mod depth_laws;
pub mod djot;
pub mod djot_depth;
pub mod djot_descent;
pub mod djot_escape;
pub mod djot_laws;
pub mod djot_line;
pub mod djot_options;
pub mod djot_plain;
pub mod djot_style_laws;
pub mod docx_options;
pub mod epub_options;
pub mod escape_laws;
pub mod export_laws;
pub mod heading_ramp;
pub mod html;
pub mod html_laws;
pub mod html_nesting_laws;
pub mod html_style_laws;
pub mod image_options;
pub mod inline_laws;
pub mod label_laws;
pub mod latex_options;
pub mod mark_options;
pub mod markdown;
pub mod markdown_laws;
pub mod odt_options;
pub mod reader_laws;
pub mod spelling_laws;
pub mod text_options;
pub mod word_count;

pub use comment_options::{CommentReply, DocumentComment, DocumentComments};
pub use content_parser::{djot_to_plain_text, TABLE_ANCHOR};
pub use djot_escape::{
    djot_round_trip_is_lossy, escape_djot_inline, guard_djot_block_start, needs_djot_escaping,
    plain_text_to_djot,
};
pub use djot_options::{DjotExportOptions, DjotImportOptions};
pub use docx_options::{DocxExportOptions, DocxHeadingStyle};
pub use epub_options::EpubExportOptions;
pub use image_options::{ExportImage, ExportImages, HtmlExportOptions, HtmlImageMode};
pub use latex_options::LatexExportOptions;
pub use mark_options::{DocumentMark, DocumentMarks, MAX_BOOKMARK_NAME_LEN};
pub use odt_options::{OdtExportOptions, OdtHeadingStyle};
pub use text_options::{
    markdown_page_break, MarkdownExportOptions, PlainTextExportOptions, FORM_FEED,
    HTML_PAGE_BREAK_STYLE,
};
pub use word_count::{count, count_djot, CountMethod, WordCharCounts};
