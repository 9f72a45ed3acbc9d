//! Opt-ins for the two *flowing* export formats.
//!
//! Plain text and Markdown have no page geometry and no typography, so these carry
//! nothing but a handful of presentation choices. Both default to *off*, and that
//! default is load-bearing: the plain view is pinned character-for-character to the
//! document's addressable text, and anything that inserts or indents shifts every
//! offset after it.
use vstd::prelude::*;

verus! {

/// The CSS3 property and its CSS2 predecessor, both, because reading systems and print
/// engines are still split between them.
pub const HTML_PAGE_BREAK_STYLE: &'static str = "break-before: page; page-break-before: always;";

/// A raw HTML block standing in for a page break in Markdown.
///
/// Markdown has no page-break construct. This one survives as raw HTML, reaches HTML
/// output intact, and is honoured by browser and EPUB print engines. It renders as
/// nothing on screen.
pub fn markdown_page_break() -> (block: String)
    ensures
        block@ == "<div style=\""@ + HTML_PAGE_BREAK_STYLE@ + "\"></div>"@,
{
    let mut block = "<div style=\"".to_string();
    block.push_str(HTML_PAGE_BREAK_STYLE);
    block.push_str("\"></div>");
    block
}

/// U+000C FORM FEED: what a page break has meant in a text file since line printers.
pub const FORM_FEED: char = '\u{000C}';

#[derive(Clone, Copy, Debug, PartialEq, Eq, Structural)]
pub struct PlainTextExportOptions {
    /// Indent blockquoted blocks four spaces per level, so quoted matter still reads as
    /// set-off in a format with no markup to say so.
    pub quote_indent: bool,
    /// Emit [`FORM_FEED`] before a block that asks to start a new page.
    pub page_breaks: bool,
    /// Drop the `U+FFFC` that stands for an inline image.
    ///
    /// **Presentation only**: it is also one character of the document, so removing it
    /// shifts every offset after it.
    pub strip_images: bool,
    /// Lift footnotes out of the flow and list them, numbered, at the end.
    ///
    /// **Presentation only**, and for exactly the reason `strip_images` is.
    pub endnote_footnotes: bool,
}

impl PlainTextExportOptions {
    /// Nothing added: the addressable view, pinned to the document's own search
    /// text. Offsets into it are offsets into the document, character for
    /// character.
    pub fn addressable() -> (options: Self)
        ensures
            options == (PlainTextExportOptions {
                quote_indent: false,
                page_breaks: false,
                strip_images: false,
                endnote_footnotes: false,
            }),
    {
        PlainTextExportOptions {
            quote_indent: false,
            page_breaks: false,
            strip_images: false,
            endnote_footnotes: false,
        }
    }

    /// Everything a written-out `.txt` wants.
    pub fn presentation() -> (options: Self)
        ensures
            options == (PlainTextExportOptions {
                quote_indent: true,
                page_breaks: true,
                strip_images: true,
                endnote_footnotes: true,
            }),
    {
        PlainTextExportOptions {
            quote_indent: true,
            page_breaks: true,
            strip_images: true,
            endnote_footnotes: true,
        }
    }
}

impl Default for PlainTextExportOptions {
    fn default() -> (options: Self)
        ensures
            options == (PlainTextExportOptions {
                quote_indent: false,
                page_breaks: false,
                strip_images: false,
                endnote_footnotes: false,
            }),
    {
        Self::addressable()
    }
}

#[derive(Clone, Copy, Debug, PartialEq, Eq, Structural)]
pub struct MarkdownExportOptions {
    /// Emit [`markdown_page_break`] before a block that asks to start a new page. Off by
    /// default: raw HTML is not Markdown.
    pub page_breaks: bool,
    /// Drop inline images instead of emitting `![alt](src)`.
    ///
    /// A Markdown export references its images by path and cannot carry their
    /// bytes. Off by default, because the reference is what a caller who writes the
    /// files needs.
    pub omit_images: bool,
}

impl Default for MarkdownExportOptions {
    fn default() -> (options: Self)
        ensures
            options == (MarkdownExportOptions { page_breaks: false, omit_images: false }),
    {
        MarkdownExportOptions { page_breaks: false, omit_images: false }
    }
}

} // verus!
