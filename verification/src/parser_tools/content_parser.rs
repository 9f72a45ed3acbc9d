//! What a reader makes of a document: blocks, tables and footnotes, made of
//! formatted spans.
use vstd::prelude::*;

use crate::entities::{
    Alignment, CharVerticalAlignment, ListStyle, MarkerType, SemanticRole, TextDirection,
};
use crate::format_runs::{
    coalesce_in_place, coalesced, plain_format, CharacterFormat, FormatModel, FormatRun, RunModel,
};
use crate::inline_pieces::{FootnoteRefAnchor, ImageAnchor, ImageModel, NoteModel};
use crate::models::group_deep_view;
use crate::text::{byte_len, byte_len_push, encode_utf8_concat, from_chars, to_chars};

pub use crate::parser_tools::djot::{
    block_attrs_to_style, djot_to_plain_text, parse_djot, DjotBlockStyle, TABLE_ANCHOR,
};
pub use crate::parser_tools::html::{
    parse_block_styles, parse_html, parse_html_elements, BlockStyles,
};
pub use crate::parser_tools::markdown::{heading_level_to_i64, parse_markdown};

verus! {

broadcast use group_deep_view;

/// What a [`ParsedImage`] holds.
#[verifier::ext_equal]
pub struct PictureModel {
    pub src: Seq<char>,
    pub alt: Seq<char>,
    pub width: i64,
    pub height: i64,
}

/// An inline image recovered by a parser, before it becomes an [`ImageAnchor`].
///
/// `src` is whatever the source document pointed at: a relative path, a bare
/// name, a URL. Parsers do not resolve it; that is the embedding application's
/// job, and this crate never touches the filesystem.
#[derive(Debug, PartialEq, Eq)]
pub struct ParsedImage {
    pub src: String,
    pub alt: String,
    /// Display size in pixels, `0` when the source did not state one.
    ///
    /// Djot and HTML both carry these as attributes (`{width=800}`,
    /// `<img width=..>`); Markdown has no syntax for them, so a Markdown import
    /// leaves both zero and the caller supplies intrinsic dimensions.
    pub width: i64,
    pub height: i64,
}

impl DeepView for ParsedImage {
    type V = PictureModel;

    open spec fn deep_view(&self) -> PictureModel {
        PictureModel { src: self.src@, alt: self.alt@, width: self.width, height: self.height }
    }
}

impl Clone for ParsedImage {
    fn clone(&self) -> (copy: Self)
        ensures
            copy.deep_view() == self.deep_view(),
    {
        ParsedImage {
            src: self.src.clone(),
            alt: self.alt.clone(),
            width: self.width,
            height: self.height,
        }
    }
}

impl Default for ParsedImage {
    fn default() -> (image: Self)
        ensures
            image.src@.len() == 0 && image.alt@.len() == 0 && image.width == 0 && image.height == 0,
    {
        ParsedImage { src: String::new(), alt: String::new(), width: 0, height: 0 }
    }
}

/// What a [`ParsedSpan`] holds.
#[verifier::ext_equal]
pub struct SpanModel {
    pub text: Seq<char>,
    pub bold: bool,
    pub italic: bool,
    pub underline: bool,
    pub strikeout: bool,
    pub code: bool,
    pub superscript: bool,
    pub subscript: bool,
    pub link_href: Option<Seq<char>>,
    pub image: Option<PictureModel>,
    pub footnote_ref: Option<Seq<char>>,
}

/// The span without text or formatting.
pub open spec fn empty_span() -> SpanModel {
    SpanModel {
        text: Seq::empty(),
        bold: false,
        italic: false,
        underline: false,
        strikeout: false,
        code: false,
        superscript: false,
        subscript: false,
        link_href: None,
        image: None,
        footnote_ref: None,
    }
}

/// A parsed inline span with formatting info.
///
/// A span carries *either* text or an image, never both: an image span's `text`
/// is empty and its description lives in [`ParsedImage::alt`], so alt text
/// cannot leak into the block's prose (and therefore cannot be counted as
/// manuscript words or matched by a search).
#[derive(Debug)]
pub struct ParsedSpan {
    pub text: String,
    pub bold: bool,
    pub italic: bool,
    pub underline: bool,
    pub strikeout: bool,
    pub code: bool,
    /// Superscript (djot `^x^`). Maps to `CharVerticalAlignment::SuperScript`.
    pub superscript: bool,
    /// Subscript (djot `~x~`). Maps to `CharVerticalAlignment::SubScript`.
    pub subscript: bool,
    pub link_href: Option<String>,
    /// Set when this span is an inline image rather than text.
    pub image: Option<ParsedImage>,
    /// Set when this span is a footnote *reference* rather than text: the
    /// label naming the note, never the number a reader sees.
    pub footnote_ref: Option<String>,
}

impl DeepView for ParsedSpan {
    type V = SpanModel;

    open spec fn deep_view(&self) -> SpanModel {
        SpanModel {
            text: self.text@,
            bold: self.bold,
            italic: self.italic,
            underline: self.underline,
            strikeout: self.strikeout,
            code: self.code,
            superscript: self.superscript,
            subscript: self.subscript,
            link_href: self.link_href.deep_view(),
            image: self.image.deep_view(),
            footnote_ref: self.footnote_ref.deep_view(),
        }
    }
}

impl Clone for ParsedSpan {
    fn clone(&self) -> (copy: Self)
        ensures
            copy.deep_view() == self.deep_view(),
    {
        ParsedSpan {
            text: self.text.clone(),
            bold: self.bold,
            italic: self.italic,
            underline: self.underline,
            strikeout: self.strikeout,
            code: self.code,
            superscript: self.superscript,
            subscript: self.subscript,
            link_href: self.link_href.clone(),
            image: self.image.clone(),
            footnote_ref: self.footnote_ref.clone(),
        }
    }
}

impl Default for ParsedSpan {
    fn default() -> (span: Self)
        ensures
            span.deep_view() == empty_span(),
    {
        let span = ParsedSpan {
            text: String::new(),
            bold: false,
            italic: false,
            underline: false,
            strikeout: false,
            code: false,
            superscript: false,
            subscript: false,
            link_href: None,
            image: None,
            footnote_ref: None,
        };
        assert(span.deep_view() =~= empty_span());
        span
    }
}

/// A parsed table cell containing inline spans.
#[derive(Debug)]
pub struct ParsedTableCell {
    pub spans: Vec<ParsedSpan>,
}

impl DeepView for ParsedTableCell {
    type V = Seq<SpanModel>;

    open spec fn deep_view(&self) -> Seq<SpanModel> {
        self.spans.deep_view()
    }
}

impl Clone for ParsedTableCell {
    fn clone(&self) -> (copy: Self)
        ensures
            copy.deep_view() == self.deep_view(),
    {
        let copy = ParsedTableCell { spans: self.spans.clone() };
        assert(copy.deep_view() =~= self.deep_view());
        copy
    }
}

/// What a [`ParsedTable`] holds.
#[verifier::ext_equal]
pub struct TableModel {
    pub header_rows: int,
    pub rows: Seq<Seq<Seq<SpanModel>>>,
    pub blockquote_depth: int,
}

/// A parsed table extracted from markdown or HTML.
#[derive(Debug)]
pub struct ParsedTable {
    /// Number of header rows (typically 1 for markdown tables).
    pub header_rows: usize,
    /// All rows (header + body), each containing cells with their inline spans.
    pub rows: Vec<Vec<ParsedTableCell>>,
    /// Blockquote nesting depth at the point the table appeared
    /// (0 = not inside a blockquote), mirroring `ParsedBlock::blockquote_depth`.
    pub blockquote_depth: u32,
}

impl DeepView for ParsedTable {
    type V = TableModel;

    open spec fn deep_view(&self) -> TableModel {
        TableModel {
            header_rows: self.header_rows as int,
            rows: self.rows.deep_view(),
            blockquote_depth: self.blockquote_depth as int,
        }
    }
}

impl Clone for ParsedTable {
    fn clone(&self) -> (copy: Self)
        ensures
            copy.deep_view() == self.deep_view(),
    {
        let ghost all = self.rows.deep_view();
        let mut rows: Vec<Vec<ParsedTableCell>> = Vec::new();
        for i in 0..self.rows.len()
            invariant
                all == self.rows.deep_view(),
                rows.deep_view() == all.take(i as int),
        {
            let row = self.rows[i].clone();
            assert(row.deep_view() =~= self.rows[i as int].deep_view());
            rows.push(row);
            assert(all.take(i + 1) =~= all.take(i as int).push(all[i as int]));
        }
        assert(all.take(all.len() as int) =~= all);
        ParsedTable {
            header_rows: self.header_rows,
            rows,
            blockquote_depth: self.blockquote_depth,
        }
    }
}

/// What a [`ParsedBlock`] holds.
#[verifier::ext_equal]
pub struct BlockModel {
    pub spans: Seq<SpanModel>,
    pub heading_level: Option<i64>,
    pub list_style: Option<ListStyle>,
    pub list_indent: int,
    pub list_prefix: Seq<char>,
    pub list_suffix: Seq<char>,
    pub marker: Option<MarkerType>,
    pub is_code_block: bool,
    pub code_language: Option<Seq<char>>,
    pub blockquote_depth: int,
    pub line_height: Option<i64>,
    pub non_breakable_lines: Option<bool>,
    pub page_break_before: Option<bool>,
    pub direction: Option<TextDirection>,
    pub background_color: Option<Seq<char>>,
    pub alignment: Option<Alignment>,
    pub top_margin: Option<i64>,
    pub text_indent: Option<i64>,
    pub semantic_role: Option<SemanticRole>,
}

/// A paragraph of spans, without block-level formatting.
pub open spec fn paragraph(spans: Seq<SpanModel>) -> BlockModel {
    BlockModel {
        spans,
        heading_level: None,
        list_style: None,
        list_indent: 0,
        list_prefix: Seq::empty(),
        list_suffix: Seq::empty(),
        marker: None,
        is_code_block: false,
        code_language: None,
        blockquote_depth: 0,
        line_height: None,
        non_breakable_lines: None,
        page_break_before: None,
        direction: None,
        background_color: None,
        alignment: None,
        top_margin: None,
        text_indent: None,
        semantic_role: None,
    }
}

/// A parsed block (paragraph, heading, list item, code block)
#[derive(Debug)]
pub struct ParsedBlock {
    pub spans: Vec<ParsedSpan>,
    pub heading_level: Option<i64>,
    pub list_style: Option<ListStyle>,
    pub list_indent: u32,
    /// Ordered-list delimiter prefix (e.g. `"("` for djot `(1)` lists; empty
    /// otherwise). Stored on the list for round-trip fidelity.
    pub list_prefix: String,
    /// Ordered-list delimiter suffix (`"."` for `1.`, `")"` for `1)`/`(1)`;
    /// empty for unordered lists).
    pub list_suffix: String,
    /// Task-list checkbox marker (djot `- [ ]` / `- [x]`). `None` for non-task
    /// blocks.
    pub marker: Option<MarkerType>,
    pub is_code_block: bool,
    pub code_language: Option<String>,
    pub blockquote_depth: u32,
    pub line_height: Option<i64>,
    pub non_breakable_lines: Option<bool>,
    /// Start this block on a new page (djot `{page_break_before=true}`). `None`
    /// when absent.
    pub page_break_before: Option<bool>,
    pub direction: Option<TextDirection>,
    pub background_color: Option<String>,
    /// Paragraph alignment (djot `{alignment=left|right|center|justify}`).
    /// `None` when no alignment attribute is present.
    pub alignment: Option<Alignment>,
    /// This block's own space-above (djot `{top_margin=<int>}`), which overrides
    /// the document-wide paragraph spacing for this block alone. `None` when
    /// absent.
    pub top_margin: Option<i64>,
    /// This block's own first-line indent (djot `{text_indent=<int>}`), which
    /// overrides the document-wide first-line indent for this block alone.
    /// `None` when absent.
    pub text_indent: Option<i64>,
    /// The enclosing blockquote's semantic role (djot `{semantic_role=epigraph}`),
    /// written on the quote's first block because block attributes are the only channel
    /// djot offers. The importer lifts it onto the frame, where it belongs.
    pub semantic_role: Option<SemanticRole>,
}

impl DeepView for ParsedBlock {
    type V = BlockModel;

    open spec fn deep_view(&self) -> BlockModel {
        BlockModel {
            spans: self.spans.deep_view(),
            heading_level: self.heading_level,
            list_style: self.list_style,
            list_indent: self.list_indent as int,
            list_prefix: self.list_prefix@,
            list_suffix: self.list_suffix@,
            marker: self.marker,
            is_code_block: self.is_code_block,
            code_language: self.code_language.deep_view(),
            blockquote_depth: self.blockquote_depth as int,
            line_height: self.line_height,
            non_breakable_lines: self.non_breakable_lines,
            page_break_before: self.page_break_before,
            direction: self.direction,
            background_color: self.background_color.deep_view(),
            alignment: self.alignment,
            top_margin: self.top_margin,
            text_indent: self.text_indent,
            semantic_role: self.semantic_role,
        }
    }
}

impl Clone for ParsedBlock {
    fn clone(&self) -> (copy: Self)
        ensures
            copy.deep_view() == self.deep_view(),
    {
        let spans = self.spans.clone();
        assert(spans.deep_view() =~= self.spans.deep_view());
        ParsedBlock {
            spans,
            heading_level: self.heading_level,
            list_style: self.list_style,
            list_indent: self.list_indent,
            list_prefix: self.list_prefix.clone(),
            list_suffix: self.list_suffix.clone(),
            marker: self.marker,
            is_code_block: self.is_code_block,
            code_language: self.code_language.clone(),
            blockquote_depth: self.blockquote_depth,
            line_height: self.line_height,
            non_breakable_lines: self.non_breakable_lines,
            page_break_before: self.page_break_before,
            direction: self.direction,
            background_color: self.background_color.clone(),
            alignment: self.alignment,
            top_margin: self.top_margin,
            text_indent: self.text_indent,
            semantic_role: self.semantic_role,
        }
    }
}

impl ParsedBlock {
    /// A paragraph of spans, without block-level formatting.
    pub fn paragraph(spans: Vec<ParsedSpan>) -> (block: Self)
        ensures
            block.deep_view() == paragraph(spans.deep_view()),
            block.spans == spans,
    {
        let block = ParsedBlock {
            spans,
            heading_level: None,
            list_style: None,
            list_indent: 0,
            list_prefix: String::new(),
            list_suffix: String::new(),
            marker: None,
            is_code_block: false,
            code_language: None,
            blockquote_depth: 0,
            line_height: None,
            non_breakable_lines: None,
            page_break_before: None,
            direction: None,
            background_color: None,
            alignment: None,
            top_margin: None,
            text_indent: None,
            semantic_role: None,
        };
        assert(block.deep_view() =~= paragraph(spans.deep_view()));
        block
    }

    /// A paragraph without text.
    pub fn empty_paragraph() -> (block: Self)
        ensures
            block.deep_view() == paragraph(seq![empty_span()]),
    {
        let spans = vec![ParsedSpan::default()];
        assert(spans.deep_view() =~= seq![empty_span()]);
        ParsedBlock::paragraph(spans)
    }

    /// Returns `true` when this block carries no block-level formatting,
    /// meaning its content is purely inline.
    pub fn is_inline_only(&self) -> (plain: bool)
        ensures
            plain == inline_only(self.deep_view()),
    {
        self.heading_level.is_none() && self.list_style.is_none() && !self.is_code_block
            && self.blockquote_depth == 0 && self.line_height.is_none()
            && self.non_breakable_lines.is_none() && self.page_break_before.is_none()
            && self.direction.is_none() && self.background_color.is_none()
            && self.alignment.is_none() && self.top_margin.is_none() && self.text_indent.is_none()
    }
}

/// Whether a block carries no block-level formatting.
pub open spec fn inline_only(block: BlockModel) -> bool {
    &&& block.heading_level is None
    &&& block.list_style is None
    &&& !block.is_code_block
    &&& block.blockquote_depth == 0
    &&& block.line_height is None
    &&& block.non_breakable_lines is None
    &&& block.page_break_before is None
    &&& block.direction is None
    &&& block.background_color is None
    &&& block.alignment is None
    &&& block.top_margin is None
    &&& block.text_indent is None
}

/// What a [`ParsedElement`] holds.
#[verifier::ext_equal]
pub enum ElementModel {
    Block(BlockModel),
    Table(TableModel),
    FootnoteDefinition { label: Seq<char>, blocks: Seq<BlockModel> },
}

/// A parsed element: a block, a table or a footnote definition.
#[derive(Debug)]
pub enum ParsedElement {
    Block(ParsedBlock),
    Table(ParsedTable),
    /// A footnote definition: the label its references name, and the blocks
    /// making up its body.
    ///
    /// Separate from `Block` because a definition is not part of the flow it was
    /// written in: it belongs wherever the output format puts notes, which the
    /// importer expresses by giving it a detached frame of its own.
    FootnoteDefinition { label: String, blocks: Vec<ParsedBlock> },
}

impl DeepView for ParsedElement {
    type V = ElementModel;

    open spec fn deep_view(&self) -> ElementModel {
        match *self {
            ParsedElement::Block(block) => ElementModel::Block(block.deep_view()),
            ParsedElement::Table(table) => ElementModel::Table(table.deep_view()),
            ParsedElement::FootnoteDefinition { label, blocks } => {
                ElementModel::FootnoteDefinition { label: label@, blocks: blocks.deep_view() }
            },
        }
    }
}

impl Clone for ParsedElement {
    fn clone(&self) -> (copy: Self)
        ensures
            copy.deep_view() == self.deep_view(),
    {
        match self {
            ParsedElement::Block(block) => ParsedElement::Block(block.clone()),
            ParsedElement::Table(table) => ParsedElement::Table(table.clone()),
            ParsedElement::FootnoteDefinition { label, blocks } => {
                let copies = blocks.clone();
                assert(copies.deep_view() =~= blocks.deep_view());
                ParsedElement::FootnoteDefinition { label: label.clone(), blocks: copies }
            },
        }
    }
}

/// The cells of a row as blocks at one blockquote depth.
pub open spec fn row_blocks(row: Seq<Seq<SpanModel>>, depth: int) -> Seq<BlockModel> {
    row.map_values(
        |cell: Seq<SpanModel>| BlockModel { blockquote_depth: depth, ..paragraph(cell) },
    )
}

/// The cells of a table as blocks, row by row.
pub open spec fn table_blocks(rows: Seq<Seq<Seq<SpanModel>>>, depth: int) -> Seq<BlockModel>
    decreases rows.len(),
{
    if rows.len() == 0 {
        Seq::empty()
    } else {
        table_blocks(rows.drop_last(), depth) + row_blocks(rows.last(), depth)
    }
}

/// The blocks of an element's flow: the block itself, the cells of a table, and
/// nothing of a footnote definition, which is not part of the flow it was
/// written in.
pub open spec fn element_blocks(element: ElementModel) -> Seq<BlockModel> {
    match element {
        ElementModel::Block(block) => seq![block],
        ElementModel::Table(table) => table_blocks(table.rows, table.blockquote_depth),
        ElementModel::FootnoteDefinition { .. } => Seq::empty(),
    }
}

/// The blocks of all elements, in order.
pub open spec fn all_blocks(elements: Seq<ElementModel>) -> Seq<BlockModel>
    decreases elements.len(),
{
    if elements.len() == 0 {
        Seq::empty()
    } else {
        all_blocks(elements.drop_last()) + element_blocks(elements.last())
    }
}

/// The blocks of all elements, or one empty paragraph where there are none.
pub open spec fn flattened(elements: Seq<ElementModel>) -> Seq<BlockModel> {
    if all_blocks(elements).len() == 0 {
        seq![paragraph(seq![empty_span()])]
    } else {
        all_blocks(elements)
    }
}

impl ParsedElement {
    /// Extract blocks, flattening tables into one block per cell.
    /// Use when table structure is not needed.
    pub fn flatten_to_blocks(elements: Vec<ParsedElement>) -> (blocks: Vec<ParsedBlock>)
        ensures
            blocks.deep_view() == flattened(elements.deep_view()),
    {
        let ghost all = elements.deep_view();
        let mut blocks: Vec<ParsedBlock> = Vec::new();
        for i in 0..elements.len()
            invariant
                all == elements.deep_view(),
                blocks.deep_view() == all_blocks(all.take(i as int)),
        {
            proof {
                assert(all.take(i + 1).drop_last() =~= all.take(i as int));
                assert(all[i as int] == elements[i as int].deep_view());
            }
            let ghost done = blocks.deep_view();
            match &elements[i] {
                ParsedElement::Block(block) => {
                    blocks.push(block.clone());
                    assert(blocks.deep_view() =~= done + seq![block.deep_view()]);
                },
                ParsedElement::FootnoteDefinition { .. } => {
                    assert(done + Seq::<BlockModel>::empty() =~= done);
                },
                ParsedElement::Table(table) => {
                    flatten_table(table, &mut blocks);
                },
            }
        }
        assert(all.take(all.len() as int) =~= all);
        if blocks.is_empty() {
            blocks.push(ParsedBlock::empty_paragraph());
            assert(blocks.deep_view() =~= seq![paragraph(seq![empty_span()])]);
        }
        blocks
    }
}

/// Appends the cells of a table as blocks.
fn flatten_table(table: &ParsedTable, blocks: &mut Vec<ParsedBlock>)
    ensures
        final(blocks).deep_view() == old(blocks).deep_view() + table_blocks(
            table.rows.deep_view(),
            table.blockquote_depth as int,
        ),
{
    let ghost start = blocks.deep_view();
    let ghost rows = table.rows.deep_view();
    let ghost depth = table.blockquote_depth as int;
    assert(start + table_blocks(rows.take(0), depth) =~= start);
    for r in 0..table.rows.len()
        invariant
            rows == table.rows.deep_view(),
            depth == table.blockquote_depth,
            blocks.deep_view() == start + table_blocks(rows.take(r as int), depth),
    {
        let row = &table.rows[r];
        let ghost cells = row.deep_view();
        let ghost before = blocks.deep_view();
        assert(before + row_blocks(cells, depth).take(0) =~= before);
        for c in 0..row.len()
            invariant
                cells == row.deep_view(),
                depth == table.blockquote_depth,
                blocks.deep_view() == before + row_blocks(cells, depth).take(c as int),
        {
            let spans = row[c].clone().spans;
            assert(spans.deep_view() == cells[c as int]);
            let mut block = ParsedBlock::paragraph(spans);
            block.blockquote_depth = table.blockquote_depth;
            assert(block.deep_view() =~= row_blocks(cells, depth)[c as int]);
            let ghost now = blocks.deep_view();
            blocks.push(block);
            assert(blocks.deep_view() =~= before + row_blocks(cells, depth).take(c + 1));
        }
        proof {
            assert(row_blocks(cells, depth).take(cells.len() as int) =~= row_blocks(cells, depth));
            assert(rows.take(r + 1).drop_last() =~= rows.take(r as int));
            assert(blocks.deep_view() =~= start + table_blocks(rows.take(r + 1), depth));
        }
    }
    assert(rows.take(rows.len() as int) =~= rows);
}

/// The format of the characters of a span.
pub open spec fn span_format(span: SpanModel, is_code_block: bool) -> FormatModel {
    FormatModel {
        font_bold: if span.bold {
            Some(true)
        } else {
            None
        },
        font_italic: if span.italic {
            Some(true)
        } else {
            None
        },
        font_underline: if span.underline {
            Some(true)
        } else {
            None
        },
        font_strikeout: if span.strikeout {
            Some(true)
        } else {
            None
        },
        font_family: if span.code || is_code_block {
            Some("monospace"@)
        } else {
            None
        },
        anchor_href: span.link_href,
        is_anchor: if span.link_href is Some {
            Some(true)
        } else {
            None
        },
        vertical_alignment: if span.superscript {
            Some(CharVerticalAlignment::SuperScript)
        } else if span.subscript {
            Some(CharVerticalAlignment::SubScript)
        } else {
            None
        },
        ..plain_format()
    }
}

/// `Some(true)` for a flag that is set, `None` for one that is not.
fn flag(set: bool) -> (value: Option<bool>)
    ensures
        value == if set {
            Some(true)
        } else {
            None
        },
{
    if set {
        Some(true)
    } else {
        None
    }
}

/// Convert a `ParsedSpan` (parser output) into the `CharacterFormat` used by
/// `FormatRun`. `is_code_block` forces `monospace` as the font family for
/// every span inside a code block.
pub fn character_format_from_span(span: &ParsedSpan, is_code_block: bool) -> (format:
    CharacterFormat)
    ensures
        format.deep_view() == span_format(span.deep_view(), is_code_block),
{
    let mut format = CharacterFormat::default();
    format.font_bold = flag(span.bold);
    format.font_italic = flag(span.italic);
    format.font_underline = flag(span.underline);
    format.font_strikeout = flag(span.strikeout);
    if span.code || is_code_block {
        format.font_family = Some("monospace".to_string());
    }
    format.anchor_href = span.link_href.clone();
    format.is_anchor = flag(span.link_href.is_some());
    if span.superscript {
        format.vertical_alignment = Some(CharVerticalAlignment::SuperScript);
    } else if span.subscript {
        format.vertical_alignment = Some(CharVerticalAlignment::SubScript);
    }
    format
}

/// What a [`ParsedInline`] holds.
#[verifier::ext_equal]
pub struct InlineModel {
    pub text: Seq<char>,
    pub runs: Seq<RunModel>,
    pub images: Seq<ImageModel>,
    pub footnote_refs: Seq<NoteModel>,
}

/// The parallel things a block stores, as recovered from parsed spans.
#[derive(Debug)]
pub struct ParsedInline {
    pub plain_text: String,
    pub runs: Vec<FormatRun>,
    pub images: Vec<ImageAnchor>,
    pub footnote_refs: Vec<FootnoteRefAnchor>,
}

impl DeepView for ParsedInline {
    type V = InlineModel;

    open spec fn deep_view(&self) -> InlineModel {
        InlineModel {
            text: self.plain_text@,
            runs: self.runs.deep_view(),
            images: self.images.deep_view(),
            footnote_refs: self.footnote_refs.deep_view(),
        }
    }
}

impl Default for ParsedInline {
    fn default() -> (inline: Self)
        ensures
            inline.deep_view() == nothing_inline(),
    {
        let inline = ParsedInline {
            plain_text: String::new(),
            runs: Vec::new(),
            images: Vec::new(),
            footnote_refs: Vec::new(),
        };
        assert(inline.deep_view() =~= nothing_inline());
        inline
    }
}

impl Clone for ParsedInline {
    fn clone(&self) -> (copy: Self)
        ensures
            copy.deep_view() == self.deep_view(),
    {
        let copy = ParsedInline {
            plain_text: self.plain_text.clone(),
            runs: self.runs.clone(),
            images: self.images.clone(),
            footnote_refs: self.footnote_refs.clone(),
        };
        assert(copy.deep_view() =~= self.deep_view());
        copy
    }
}

/// No text, no runs, no objects.
pub open spec fn nothing_inline() -> InlineModel {
    InlineModel {
        text: Seq::empty(),
        runs: Seq::empty(),
        images: Seq::empty(),
        footnote_refs: Seq::empty(),
    }
}

/// A block's content after one more span. An inline object takes one U+FFFC; a
/// footnote reference is raised, whatever the prose around it does; a span
/// without text or format leaves no run.
pub open spec fn add_span(inline: InlineModel, span: SpanModel, is_code_block: bool) -> InlineModel {
    let start = byte_len(inline.text) as int;
    if let Some(label) = span.footnote_ref {
        InlineModel {
            text: inline.text.push('\u{FFFC}'),
            footnote_refs: inline.footnote_refs.push(
                NoteModel {
                    offset: start,
                    label,
                    format: FormatModel {
                        vertical_alignment: Some(CharVerticalAlignment::SuperScript),
                        ..span_format(span, is_code_block)
                    },
                },
            ),
            ..inline
        }
    } else if let Some(image) = span.image {
        InlineModel {
            text: inline.text.push('\u{FFFC}'),
            images: inline.images.push(
                ImageModel {
                    offset: start,
                    name: image.src,
                    alt: image.alt,
                    width: image.width,
                    height: image.height,
                    quality: 100,
                    format: span_format(span, is_code_block),
                },
            ),
            ..inline
        }
    } else {
        let text = inline.text + span.text;
        let end = byte_len(text) as int;
        InlineModel {
            text,
            runs: if start == end || span_format(span, is_code_block) == plain_format() {
                inline.runs
            } else {
                inline.runs.push(
                    RunModel { start, end, format: span_format(span, is_code_block) },
                )
            },
            ..inline
        }
    }
}

/// The content that spans make up, before its runs are merged.
pub open spec fn add_spans(spans: Seq<SpanModel>, is_code_block: bool) -> InlineModel
    decreases spans.len(),
{
    if spans.len() == 0 {
        nothing_inline()
    } else {
        add_span(add_spans(spans.drop_last(), is_code_block), spans.last(), is_code_block)
    }
}

/// The content that spans make up.
pub open spec fn inline_of(spans: Seq<SpanModel>, is_code_block: bool) -> InlineModel {
    let inline = add_spans(spans, is_code_block);
    InlineModel { runs: coalesced(inline.runs), ..inline }
}

proof fn add_spans_grows(spans: Seq<SpanModel>, is_code_block: bool, i: int)
    requires
        0 <= i <= spans.len(),
    ensures
        byte_len(add_spans(spans.take(i), is_code_block).text) <= byte_len(
            add_spans(spans, is_code_block).text,
        ),
    decreases spans.len(),
{
    if i == spans.len() {
        assert(spans.take(i) =~= spans);
    } else {
        let rest = spans.drop_last();
        assert(rest.take(i) =~= spans.take(i));
        add_spans_grows(rest, is_code_block, i);
        let before = add_spans(rest, is_code_block);
        byte_len_push(before.text, '\u{FFFC}');
        encode_utf8_concat(before.text, spans.last().text);
    }
}

/// Translate a slice of parsed spans into a block's text, runs and anchors.
///
/// One non-default span yields one `FormatRun`; spans with empty
/// `CharacterFormat` (no decoration, no link, no code) emit no run, since an
/// absent run means "inherit default formatting". Adjacent runs with identical
/// formats are coalesced, so the resulting vector is well formed.
pub fn format_runs_from_spans(spans: &[ParsedSpan], is_code_block: bool) -> (inline: ParsedInline)
    requires
        byte_len(add_spans(spans.deep_view(), is_code_block).text) <= u32::MAX,
    ensures
        inline.deep_view() == inline_of(spans.deep_view(), is_code_block),
{
    let ghost all = spans.deep_view();
    let default = CharacterFormat::default();
    let mut inline = ParsedInline::default();
    assert(add_spans(all.take(0), is_code_block) == nothing_inline());
    for i in 0..spans.len()
        invariant
            all == spans.deep_view(),
            default.deep_view() == plain_format(),
            byte_len(add_spans(all, is_code_block).text) <= u32::MAX,
            inline.deep_view() == add_spans(all.take(i as int), is_code_block),
    {
        let span = &spans[i];
        let ghost before = inline.deep_view();
        proof {
            assert(all.take(i + 1).drop_last() =~= all.take(i as int));
            assert(all.take(i + 1).last() == span.deep_view());
            add_spans_grows(all, is_code_block, i as int);
            add_spans_grows(all, is_code_block, i + 1);
        }
        let byte_start: u32 = inline.plain_text.as_str().len() as u32;
        if let Some(label) = &span.footnote_ref {
            // A reference occupies one U+FFFC, exactly as an image does, so
            // every downstream offset treats the two alike. It is raised
            // always, whatever the surrounding run is doing: a footnote marker
            // is superscript by definition.
            inline.plain_text.push('\u{FFFC}');
            let mut format = character_format_from_span(span, is_code_block);
            format.vertical_alignment = Some(CharVerticalAlignment::SuperScript);
            inline.footnote_refs.push(
                FootnoteRefAnchor { byte_offset: byte_start, label: label.clone(), format },
            );
            assert(inline.deep_view() =~= add_span(before, span.deep_view(), is_code_block));
        } else if let Some(image) = &span.image {
            inline.plain_text.push('\u{FFFC}');
            inline.images.push(
                ImageAnchor {
                    byte_offset: byte_start,
                    name: image.src.clone(),
                    alt: image.alt.clone(),
                    width: image.width,
                    height: image.height,
                    quality: 100,
                    format: character_format_from_span(span, is_code_block),
                },
            );
            assert(inline.deep_view() =~= add_span(before, span.deep_view(), is_code_block));
        } else {
            inline.plain_text.push_str(span.text.as_str());
            let byte_end: u32 = inline.plain_text.as_str().len() as u32;
            let format = character_format_from_span(span, is_code_block);
            if byte_start != byte_end && format != default {
                inline.runs.push(FormatRun { byte_start, byte_end, format });
            }
            assert(inline.deep_view() =~= add_span(before, span.deep_view(), is_code_block));
        }
    }
    assert(all.take(all.len() as int) =~= all);
    coalesce_in_place(&mut inline.runs);
    inline
}

// ─── What the readers share ──────────────────────────────────────────

/// One more, unless that is more than the count can hold.
pub open spec fn one_more(n: int, most: int) -> int {
    if n < most {
        n + 1
    } else {
        n
    }
}

/// The blocks among elements.
pub open spec fn blocks_among(elements: Seq<ElementModel>) -> Seq<BlockModel>
    decreases elements.len(),
{
    if elements.len() == 0 {
        Seq::empty()
    } else {
        let rest = blocks_among(elements.drop_last());
        match elements.last() {
            ElementModel::Block(block) => rest.push(block),
            _ => rest,
        }
    }
}

/// Lifts the elements from a position on into a footnote definition. Only
/// blocks can be the content of a note.
pub open spec fn lift_footnote(
    elements: Seq<ElementModel>,
    label: Seq<char>,
    start: int,
) -> Seq<ElementModel> {
    elements.take(start).push(
        ElementModel::FootnoteDefinition { label, blocks: blocks_among(elements.skip(start)) },
    )
}

/// Spans without the newline that the last one ends with.
pub open spec fn without_final_newline(spans: Seq<SpanModel>) -> Seq<SpanModel> {
    if spans.len() > 0 && spans.last().text.len() > 0 && spans.last().text.last() == '\n' {
        spans.drop_last().push(
            SpanModel { text: spans.last().text.drop_last(), ..spans.last() },
        )
    } else {
        spans
    }
}

/// Elements, or one empty paragraph where there are none.
pub open spec fn or_empty_paragraph(elements: Seq<ElementModel>) -> Seq<ElementModel> {
    if elements.len() == 0 {
        seq![ElementModel::Block(paragraph(seq![empty_span()]))]
    } else {
        elements
    }
}

/// The blocks among elements.
pub(crate) fn collect_blocks(elements: &Vec<ParsedElement>) -> (blocks: Vec<ParsedBlock>)
    ensures
        blocks.deep_view() == blocks_among(elements.deep_view()),
{
    let ghost all = elements.deep_view();
    let mut blocks: Vec<ParsedBlock> = Vec::new();
    for i in 0..elements.len()
        invariant
            all == elements.deep_view(),
            blocks.deep_view() == blocks_among(all.take(i as int)),
    {
        proof {
            assert(all.take(i + 1).drop_last() =~= all.take(i as int));
            assert(all.take(i + 1).last() == elements[i as int].deep_view());
        }
        if let ParsedElement::Block(block) = &elements[i] {
            blocks.push(block.clone());
        }
    }
    assert(all.take(all.len() as int) =~= all);
    blocks
}

/// Lifts the elements from a position on into a footnote definition.
pub(crate) fn lift_into_footnote(elements: &mut Vec<ParsedElement>, label: String, start: usize)
    requires
        start <= old(elements)@.len(),
    ensures
        final(elements).deep_view() == lift_footnote(
            old(elements).deep_view(),
            label@,
            start as int,
        ),
{
    let ghost all = elements.deep_view();
    let body = elements.split_off(start);
    assert(body.deep_view() =~= all.skip(start as int));
    assert(elements.deep_view() =~= all.take(start as int));
    let blocks = collect_blocks(&body);
    elements.push(ParsedElement::FootnoteDefinition { label, blocks });
}

/// Takes the newline off the end of the last span.
pub(crate) fn strip_final_newline(spans: &mut Vec<ParsedSpan>)
    ensures
        final(spans).deep_view() == without_final_newline(old(spans).deep_view()),
{
    let ghost all = spans.deep_view();
    if spans.len() > 0 {
        let last: usize = spans.len() - 1;
        let chars = to_chars(spans[last].text.as_str());
        if chars.len() > 0 && chars[chars.len() - 1] == '\n' {
            let kept = crate::chars::part(chars.as_slice(), 0, chars.len() - 1);
            assert(kept@ =~= all.last().text.drop_last());
            let text = from_chars(kept.as_slice());
            spans[last].text = text;
            assert(spans.deep_view() =~= without_final_newline(all));
        }
    }
}

} // verus!
