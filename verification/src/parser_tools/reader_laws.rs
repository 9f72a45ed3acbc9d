//! What the readers promise of the elements they give.
use vstd::prelude::*;

use crate::parser_tools::content_parser::{
    blocks_among, lift_footnote, paragraph, without_final_newline, BlockModel, ElementModel,
    SpanModel,
};
use crate::parser_tools::djot::{
    add_djot_span, atom_char, attrs_style, bullet_style, close_spans, djot_after, djot_close,
    djot_document, djot_elements, djot_footnote_within, djot_open, djot_plain_text, djot_rest,
    djot_step, document_lines, flush_item,
    is_dropped, item_block, marked_span, no_style, read_text, span_text, spans_text, styled_block,
    verbatim_paragraph, DjotEventModel, DjotState, DjotTag,
};
use crate::parser_tools::djot_depth::too_deep;
use crate::parser_tools::djot_options::DjotImportOptions;
use crate::parser_tools::html::{
    cell_children, cell_spans, collected, collected_children, html_elements, html_tag,
    inner_format, inside, is_block, is_nested, nowhere, row_cells, table_rows, unformatted,
    walked, walked_children, FormatState, HtmlTag, NodeModel, Surroundings, ValueModel,
};
use crate::parser_tools::markdown::{
    close_block, flush_for_footnote, footnote_within, markdown_after, markdown_close,
    markdown_elements, markdown_open, markdown_rest, markdown_step, open_block, put_span,
    styled_span, without_definitions, MarkdownEventModel, MarkdownState, MarkdownTag,
};

verus! {

// ─── Text or an object ───────────────────────────────────────────────

/// Whether a span carries text, an image or a footnote reference, and no two of
/// them.
pub open spec fn single(span: SpanModel) -> bool {
    &&& span.image is Some ==> span.text.len() == 0
    &&& span.footnote_ref is Some ==> span.text.len() == 0 && span.image is None
}

/// Whether every span carries one thing.
pub open spec fn spans_single(spans: Seq<SpanModel>) -> bool {
    forall|i: int| 0 <= i < spans.len() ==> single(#[trigger] spans[i])
}

/// Whether every span of the cells of a row carries one thing.
pub open spec fn cells_single(cells: Seq<Seq<SpanModel>>) -> bool {
    forall|i: int| 0 <= i < cells.len() ==> spans_single(#[trigger] cells[i])
}

/// Whether every span of the rows of a table carries one thing.
pub open spec fn rows_single(rows: Seq<Seq<Seq<SpanModel>>>) -> bool {
    forall|i: int| 0 <= i < rows.len() ==> cells_single(#[trigger] rows[i])
}

/// Whether every span of blocks carries one thing.
pub open spec fn blocks_single(blocks: Seq<BlockModel>) -> bool {
    forall|i: int| 0 <= i < blocks.len() ==> spans_single((#[trigger] blocks[i]).spans)
}

/// Whether every span of an element carries one thing.
pub open spec fn element_single(element: ElementModel) -> bool {
    match element {
        ElementModel::Block(block) => spans_single(block.spans),
        ElementModel::Table(table) => rows_single(table.rows),
        ElementModel::FootnoteDefinition { blocks, .. } => blocks_single(blocks),
    }
}

/// Whether every span of a document carries one thing.
pub open spec fn document_single(elements: Seq<ElementModel>) -> bool {
    forall|i: int| 0 <= i < elements.len() ==> element_single(#[trigger] elements[i])
}

proof fn blocks_among_single(elements: Seq<ElementModel>)
    requires
        document_single(elements),
    ensures
        blocks_single(blocks_among(elements)),
    decreases elements.len(),
{
    if elements.len() > 0 {
        blocks_among_single(elements.drop_last());
        assert(element_single(elements[elements.len() - 1]));
    }
}

proof fn lifted_single(elements: Seq<ElementModel>, label: Seq<char>, start: int)
    requires
        document_single(elements),
        0 <= start <= elements.len(),
    ensures
        document_single(lift_footnote(elements, label, start)),
{
    let rest = elements.skip(start);
    assert forall|i: int| 0 <= i < rest.len() implies element_single(#[trigger] rest[i]) by {
        assert(element_single(elements[start + i]));
    }
    blocks_among_single(rest);
    let lifted = lift_footnote(elements, label, start);
    assert forall|i: int| 0 <= i < lifted.len() implies element_single(#[trigger] lifted[i]) by {
        if i < start {
            assert(lifted[i] == elements[i]);
        }
    }
}

proof fn stripped_single(spans: Seq<SpanModel>)
    requires
        spans_single(spans),
    ensures
        spans_single(without_final_newline(spans)),
{
    if spans.len() > 0 {
        assert(single(spans[spans.len() - 1]));
    }
}

/// What holds of the Djot reader between two events.
spec fn djot_single(s: DjotState) -> bool {
    &&& document_single(s.elements)
    &&& spans_single(s.spans)
    &&& rows_single(s.table.rows)
    &&& cells_single(s.table.row)
    &&& spans_single(s.table.cell)
    &&& djot_footnote_within(s)
}

proof fn djot_span_single(s: DjotState, span: SpanModel)
    requires
        djot_single(s),
        single(span),
    ensures
        djot_single(add_djot_span(s, span)),
{
}

proof fn djot_text_single(s: DjotState, text: Seq<char>)
    requires
        djot_single(s),
    ensures
        djot_single(read_text(s, text)),
{
    djot_span_single(s, marked_span(s.marks, text));
}

proof fn djot_close_spans_single(s: DjotState, block: BlockModel)
    requires
        djot_single(s),
        spans_single(block.spans),
    ensures
        djot_single(close_spans(s, block)),
{
}

proof fn djot_flush_single(s: DjotState)
    requires
        djot_single(s),
    ensures
        djot_single(flush_item(s)),
        flush_item(s).footnote == s.footnote,
{
    djot_close_spans_single(s, item_block(s, no_style()));
}

proof fn djot_open_single(
    s: DjotState,
    tag: DjotTag,
    text: Seq<char>,
    attrs: Seq<(Seq<char>, Seq<char>)>,
    opts: DjotImportOptions,
)
    requires
        djot_single(s),
    ensures
        djot_single(djot_open(s, tag, text, attrs, opts)),
{
    djot_flush_single(s);
}

proof fn djot_close_single(s: DjotState, tag: DjotTag)
    requires
        djot_single(s),
    ensures
        djot_single(djot_close(s, tag)),
{
    djot_flush_single(s);
    match tag {
        DjotTag::Heading(_) => {
            djot_close_spans_single(
                s,
                BlockModel { heading_level: s.heading, ..styled_block(s, s.style) },
            );
        },
        DjotTag::Paragraph => {
            djot_close_spans_single(s, item_block(s, s.style));
        },
        DjotTag::CodeBlock => {
            stripped_single(s.spans);
            let block = BlockModel {
                spans: without_final_newline(s.spans),
                is_code_block: true,
                code_language: s.code_language,
                ..styled_block(s, no_style())
            };
            djot_close_spans_single(s, block);
        },
        DjotTag::Image => {
            if let Some(image) = s.image {
                let span = SpanModel { image: Some(image), ..marked_span(s.marks, Seq::empty()) };
                djot_span_single(DjotState { image: None, ..s }, span);
            }
        },
        DjotTag::Footnote => {
            if let Some((label, start)) = s.footnote {
                lifted_single(flush_item(s).elements, label, start);
            }
        },
        _ => {},
    }
}

proof fn djot_step_single(s: DjotState, event: DjotEventModel, opts: DjotImportOptions)
    requires
        djot_single(s),
    ensures
        djot_single(djot_step(s, event, opts)),
{
    match event {
        DjotEventModel::Start(tag, text, attrs) => {
            djot_open_single(s, tag, text, attrs, opts);
        },
        DjotEventModel::End(tag) => {
            djot_close_single(s, tag);
        },
        DjotEventModel::Str(text) => {
            djot_text_single(s, text);
        },
        DjotEventModel::FootnoteReference(label) => {
            djot_span_single(
                s,
                SpanModel { footnote_ref: Some(label), ..marked_span(s.marks, Seq::empty()) },
            );
        },
        DjotEventModel::Atom(atom) => {
            match atom_char(atom) {
                Some(c) => {
                    djot_text_single(s, seq![c]);
                },
                None => {
                    djot_text_single(s, seq![' ']);
                    let block = BlockModel {
                        is_code_block: s.is_code_block,
                        code_language: s.code_language,
                        ..item_block(s, s.style)
                    };
                    djot_close_spans_single(s, block);
                },
            }
        },
    }
}

proof fn djot_after_single(events: Seq<DjotEventModel>, opts: DjotImportOptions)
    ensures
        djot_single(djot_after(events, opts)),
    decreases events.len(),
{
    if events.len() > 0 {
        djot_after_single(events.drop_last(), opts);
        djot_step_single(djot_after(events.drop_last(), opts), events.last(), opts);
    }
}

/// A span of a Djot document carries text, an image or a footnote reference, and
/// no two of them.
pub proof fn djot_spans_carry_one_thing(
    source: Seq<char>,
    events: Seq<DjotEventModel>,
    opts: DjotImportOptions,
)
    ensures
        document_single(djot_document(source, events, opts)),
{
    djot_after_single(events, opts);
}

/// What holds of the Markdown reader between two events.
spec fn markdown_single(s: MarkdownState) -> bool {
    &&& document_single(s.elements)
    &&& spans_single(s.spans)
    &&& rows_single(s.rows)
    &&& cells_single(s.row)
    &&& spans_single(s.cell)
    &&& footnote_within(s)
}

proof fn markdown_span_single(s: MarkdownState, span: SpanModel, opens_block: bool)
    requires
        markdown_single(s),
        single(span),
    ensures
        markdown_single(put_span(s, span, opens_block)),
{
}

proof fn markdown_close_block_single(s: MarkdownState, block: BlockModel)
    requires
        markdown_single(s),
        spans_single(block.spans),
    ensures
        markdown_single(close_block(s, block)),
{
}

proof fn markdown_flush_single(s: MarkdownState)
    requires
        markdown_single(s),
    ensures
        markdown_single(flush_for_footnote(s)),
        flush_for_footnote(s).footnote == s.footnote,
{
    markdown_close_block_single(s, BlockModel { heading_level: s.heading, ..open_block(s) });
}

proof fn markdown_open_single(s: MarkdownState, tag: MarkdownTag, text: Seq<char>)
    requires
        markdown_single(s),
    ensures
        markdown_single(markdown_open(s, tag, text)),
{
    markdown_flush_single(s);
    markdown_close_block_single(s, open_block(s));
}

proof fn markdown_close_single(s: MarkdownState, tag: MarkdownTag)
    requires
        markdown_single(s),
    ensures
        markdown_single(markdown_close(s, tag)),
{
    match tag {
        MarkdownTag::Paragraph => {
            markdown_close_block_single(
                s,
                BlockModel { heading_level: s.heading, ..open_block(s) },
            );
        },
        MarkdownTag::Heading(_) => {
            let block = BlockModel {
                heading_level: s.heading,
                blockquote_depth: s.blockquote_depth,
                ..paragraph(s.spans)
            };
            markdown_close_block_single(s, block);
        },
        MarkdownTag::Item => {
            markdown_close_block_single(s, open_block(s));
        },
        MarkdownTag::CodeBlock => {
            stripped_single(s.spans);
            let block = BlockModel {
                is_code_block: true,
                code_language: s.code_language,
                blockquote_depth: s.blockquote_depth,
                ..paragraph(without_final_newline(s.spans))
            };
            markdown_close_block_single(s, block);
        },
        MarkdownTag::Image => {
            if let Some(image) = s.image {
                let span = SpanModel {
                    image: Some(image),
                    ..styled_span(s, Seq::empty(), false)
                };
                markdown_span_single(MarkdownState { image: None, ..s }, span, true);
            }
        },
        MarkdownTag::FootnoteDefinition => {
            markdown_flush_single(s);
            if let Some((label, start)) = s.footnote {
                lifted_single(flush_for_footnote(s).elements, label, start);
            }
        },
        _ => {},
    }
}

proof fn markdown_step_single(s: MarkdownState, event: MarkdownEventModel)
    requires
        markdown_single(s),
    ensures
        markdown_single(markdown_step(s, event)),
{
    match event {
        MarkdownEventModel::Start(tag, text) => {
            markdown_open_single(s, tag, text);
        },
        MarkdownEventModel::End(tag) => {
            markdown_close_single(s, tag);
        },
        MarkdownEventModel::Text(text) => {
            markdown_span_single(s, styled_span(s, text, s.is_code_block), true);
        },
        MarkdownEventModel::Code(text) => {
            markdown_span_single(s, styled_span(s, text, true), true);
        },
        MarkdownEventModel::FootnoteReference(label) => {
            let span = SpanModel {
                footnote_ref: Some(label),
                ..styled_span(s, Seq::empty(), false)
            };
            markdown_span_single(s, span, true);
        },
        MarkdownEventModel::SoftBreak => {
            markdown_span_single(s, styled_span(s, seq![' '], false), false);
        },
        MarkdownEventModel::HardBreak => {
            let block = BlockModel {
                heading_level: s.heading,
                is_code_block: s.is_code_block,
                code_language: s.code_language,
                ..open_block(s)
            };
            markdown_close_block_single(s, block);
        },
        MarkdownEventModel::Other => {},
    }
}

proof fn markdown_after_single(events: Seq<MarkdownEventModel>)
    ensures
        markdown_single(markdown_after(events)),
    decreases events.len(),
{
    if events.len() > 0 {
        markdown_after_single(events.drop_last());
        markdown_step_single(markdown_after(events.drop_last()), events.last());
    }
}

proof fn without_definitions_single(elements: Seq<ElementModel>, labels: Seq<Seq<char>>)
    requires
        document_single(elements),
    ensures
        document_single(without_definitions(elements, labels)),
    decreases elements.len(),
{
    if elements.len() > 0 {
        without_definitions_single(elements.drop_last(), labels);
        assert(element_single(elements[elements.len() - 1]));
    }
}

/// A span of a Markdown document carries text, an image or a footnote reference,
/// and no two of them.
pub proof fn markdown_spans_carry_one_thing(
    events: Seq<MarkdownEventModel>,
    dangling: Seq<Seq<char>>,
)
    ensures
        document_single(markdown_elements(events, dangling)),
{
    markdown_after_single(events);
    without_definitions_single(markdown_rest(markdown_after(events)), dangling);
}

proof fn cell_spans_single(nodes: Seq<NodeModel>, i: int, format: FormatState, depth: int)
    ensures
        spans_single(cell_spans(nodes, i, format, depth)),
    decreases 258 - depth, 1int, 0int,
{
    if depth <= 256 {
        cell_children_single(nodes, i, nodes[i].children.len() as int, format, depth);
    }
}

proof fn cell_children_single(
    nodes: Seq<NodeModel>,
    i: int,
    k: int,
    format: FormatState,
    depth: int,
)
    ensures
        spans_single(cell_children(nodes, i, k, format, depth)),
    decreases 258 - depth, 0int, k,
{
    if depth <= 256 && k > 0 {
        cell_children_single(nodes, i, k - 1, format, depth);
        let child = nodes[i].children[k - 1];
        if let ValueModel::Element(name, attrs) = nodes[child].value {
            cell_spans_single(nodes, child, inner_format(format, html_tag(name), attrs), depth + 1);
        }
    }
}

proof fn row_cells_single(nodes: Seq<NodeModel>, i: int, k: int)
    ensures
        cells_single(row_cells(nodes, i, k)),
    decreases k,
{
    if k > 0 {
        row_cells_single(nodes, i, k - 1);
        cell_spans_single(nodes, nodes[i].children[k - 1], unformatted(), 0);
    }
}

proof fn table_rows_single(nodes: Seq<NodeModel>, i: int, k: int, in_head: bool)
    ensures
        rows_single(table_rows(nodes, i, k, in_head).rows),
    decreases nodes.len() - i, k,
{
    if k > 0 {
        table_rows_single(nodes, i, k - 1, in_head);
        let child = nodes[i].children[k - 1];
        if let ValueModel::Element(name, _) = nodes[child].value {
            row_cells_single(nodes, child, nodes[child].children.len() as int);
            if i < child < nodes.len() {
                table_rows_single(
                    nodes,
                    child,
                    nodes[child].children.len() as int,
                    html_tag(name) == HtmlTag::TableHead,
                );
            }
        }
    }
}

proof fn walked_single(
    nodes: Seq<NodeModel>,
    i: int,
    c: Surroundings,
    depth: int,
    reading: spec_fn(Seq<char>) -> Option<i64>,
)
    ensures
        document_single(walked(nodes, i, c, depth, reading)),
    decreases 258 - depth, 1int, 0int,
{
    if depth <= 256 {
        let count = nodes[i].children.len() as int;
        match nodes[i].value {
            ValueModel::Text(text) => {},
            ValueModel::Other => {
                walked_children_single(nodes, i, count, c, depth + 1, reading);
            },
            ValueModel::Element(name, attrs) => {
                let tag = html_tag(name);
                let inner = inside(c, tag, attrs);
                if tag is Table {
                    table_rows_single(nodes, i, count, false);
                } else if tag is Break {
                } else if is_block(tag) {
                    collected_single(nodes, i, inner, depth + 1, reading);
                } else {
                    walked_children_single(nodes, i, count, inner, depth + 1, reading);
                }
            },
        }
    }
}

proof fn walked_children_single(
    nodes: Seq<NodeModel>,
    i: int,
    k: int,
    c: Surroundings,
    depth: int,
    reading: spec_fn(Seq<char>) -> Option<i64>,
)
    ensures
        document_single(walked_children(nodes, i, k, c, depth, reading)),
    decreases 258 - depth, 2int, k,
{
    if depth <= 257 && k > 0 {
        walked_children_single(nodes, i, k - 1, c, depth, reading);
        walked_single(nodes, nodes[i].children[k - 1], c, depth, reading);
    }
}

proof fn collected_single(
    nodes: Seq<NodeModel>,
    i: int,
    c: Surroundings,
    depth: int,
    reading: spec_fn(Seq<char>) -> Option<i64>,
)
    ensures
        spans_single(collected(nodes, i, c, depth, reading).spans),
        document_single(collected(nodes, i, c, depth, reading).elements),
    decreases 258 - depth, 1int, 0int,
{
    if depth <= 256 {
        collected_children_single(nodes, i, nodes[i].children.len() as int, c, depth, reading);
    }
}

proof fn collected_children_single(
    nodes: Seq<NodeModel>,
    i: int,
    k: int,
    c: Surroundings,
    depth: int,
    reading: spec_fn(Seq<char>) -> Option<i64>,
)
    ensures
        spans_single(collected_children(nodes, i, k, c, depth, reading).spans),
        document_single(collected_children(nodes, i, k, c, depth, reading).elements),
    decreases 258 - depth, 0int, k,
{
    if depth <= 256 && k > 0 {
        collected_children_single(nodes, i, k - 1, c, depth, reading);
        let child = nodes[i].children[k - 1];
        if let ValueModel::Element(name, attrs) = nodes[child].value {
            let tag = html_tag(name);
            let inner = Surroundings { format: inner_format(c.format, tag, attrs), ..c };
            if tag is Image || tag is Break {
            } else if is_nested(tag) {
                walked_single(nodes, child, inner, depth + 1, reading);
            } else {
                collected_single(nodes, child, inner, depth + 1, reading);
            }
        }
    }
}

/// A span of an HTML document carries text or an image, and not both.
pub proof fn html_spans_carry_one_thing(
    nodes: Seq<NodeModel>,
    reading: spec_fn(Seq<char>) -> Option<i64>,
)
    ensures
        document_single(html_elements(nodes, reading)),
{
    if nodes.len() > 0 {
        collected_single(nodes, 0, nowhere(), 0, reading);
    }
}

// ─── Footnotes without a definition ──────────────────────────────────

/// No footnote of a Markdown document has a label that the document references
/// and does not define; and everything else that was read is there, in order.
pub proof fn dangling_labels_get_no_footnote(
    elements: Seq<ElementModel>,
    dangling: Seq<Seq<char>>,
    i: int,
)
    requires
        0 <= i < without_definitions(elements, dangling).len(),
    ensures
        without_definitions(elements, dangling)[i] matches ElementModel::FootnoteDefinition {
            label,
            ..
        } ==> !dangling.contains(label),
        elements.contains(without_definitions(elements, dangling)[i]),
    decreases elements.len(),
{
    let rest = without_definitions(elements.drop_last(), dangling);
    if i < rest.len() {
        dangling_labels_get_no_footnote(elements.drop_last(), dangling, i);
        let found = rest[i];
        let j = choose|j: int| 0 <= j < elements.len() - 1 && elements.drop_last()[j] == found;
        assert(elements[j] == found);
    } else {
        assert(elements[elements.len() - 1] == elements.last());
    }
}

/// An element that is no footnote without a definition is kept.
pub proof fn other_elements_are_kept(
    elements: Seq<ElementModel>,
    dangling: Seq<Seq<char>>,
    element: ElementModel,
)
    requires
        elements.contains(element),
        element matches ElementModel::FootnoteDefinition { label, .. } ==> !dangling.contains(
            label,
        ),
    ensures
        without_definitions(elements, dangling).contains(element),
    decreases elements.len(),
{
    let rest = elements.drop_last();
    let kept = without_definitions(rest, dangling);
    let all = without_definitions(elements, dangling);
    if elements.last() == element {
        assert(all.last() == element);
        assert(all[all.len() - 1] == element);
    } else {
        let j = choose|j: int| 0 <= j < elements.len() && elements[j] == element;
        assert(rest[j] == element);
        other_elements_are_kept(rest, dangling, element);
        let k = choose|k: int| 0 <= k < kept.len() && kept[k] == element;
        assert(all[k] == element);
    }
}

// ─── What Djot drops ─────────────────────────────────────────────────

/// The state that events lead to from a state.
pub open spec fn djot_from(
    s: DjotState,
    events: Seq<DjotEventModel>,
    opts: DjotImportOptions,
) -> DjotState
    decreases events.len(),
{
    if events.len() == 0 {
        s
    } else {
        djot_step(djot_from(s, events.drop_last(), opts), events.last(), opts)
    }
}

/// How many constructs that began among events have not ended.
pub open spec fn open_constructs(events: Seq<DjotEventModel>) -> int
    decreases events.len(),
{
    if events.len() == 0 {
        0
    } else {
        open_constructs(events.drop_last()) + match events.last() {
            DjotEventModel::Start(_, _, _) => 1int,
            DjotEventModel::End(_) => -1int,
            _ => 0int,
        }
    }
}

/// Whether every construct that ends among events began among them, and every
/// one that began has ended.
pub open spec fn balanced(events: Seq<DjotEventModel>) -> bool {
    &&& forall|n: int| 0 <= n <= events.len() ==> 0 <= #[trigger] open_constructs(events.take(n))
    &&& open_constructs(events) == 0
}

proof fn skipped(s: DjotState, events: Seq<DjotEventModel>, opts: DjotImportOptions)
    requires
        s.skip == 1,
        forall|n: int| 0 <= n <= events.len() ==> 0 <= #[trigger] open_constructs(events.take(n)),
        events.len() < u32::MAX,
    ensures
        open_constructs(events) <= events.len(),
        djot_from(s, events, opts) == (DjotState { skip: 1 + open_constructs(events), ..s }),
    decreases events.len(),
{
    if events.len() > 0 {
        let rest = events.drop_last();
        assert forall|n: int| 0 <= n <= rest.len() implies 0 <= #[trigger] open_constructs(
            rest.take(n),
        ) by {
            assert(rest.take(n) =~= events.take(n));
        }
        skipped(s, rest, opts);
        assert(events.take(events.len() as int) =~= events);
        assert(rest =~= events.take(rest.len() as int));
        assert(open_constructs(events.take(events.len() as int)) >= 0);
        assert(open_constructs(events.take(rest.len() as int)) >= 0);
    }
}

/// A construct that the document model cannot hold leaves no trace: whatever
/// stands in it, the reader is where it was before.
pub proof fn dropped_constructs_leave_no_trace(
    s: DjotState,
    tag: DjotTag,
    text: Seq<char>,
    attrs: Seq<(Seq<char>, Seq<char>)>,
    content: Seq<DjotEventModel>,
    end: DjotTag,
    opts: DjotImportOptions,
)
    requires
        s.skip == 0,
        is_dropped(tag),
        balanced(content),
        content.len() < u32::MAX,
    ensures
        djot_step(
            djot_from(
                djot_step(s, DjotEventModel::Start(tag, text, attrs), opts),
                content,
                opts,
            ),
            DjotEventModel::End(end),
            opts,
        ) == s,
{
    let inside = djot_step(s, DjotEventModel::Start(tag, text, attrs), opts);
    skipped(inside, content, opts);
    assert(djot_step(djot_from(inside, content, opts), DjotEventModel::End(end), opts) =~= s);
}

/// A Djot document that nests too deep loses nothing: its text is its source.
pub proof fn too_deep_source_is_kept(
    source: Seq<char>,
    events: Seq<DjotEventModel>,
    opts: DjotImportOptions,
)
    requires
        too_deep(source),
    ensures
        djot_plain_text(source, events, opts) == source,
{
    let elements = verbatim_paragraph(source);
    let spans = elements[0]->Block_0.spans;
    assert(spans.drop_last() =~= Seq::empty());
    assert(spans_text(spans.drop_last()) =~= Seq::<char>::empty());
    assert(span_text(spans.last()) == source);
    assert(spans_text(spans) =~= source);
    assert(elements.drop_last() =~= Seq::empty());
    assert(document_lines(elements.drop_last()) =~= Seq::<Seq<char>>::empty());
    assert(document_lines(elements) =~= seq![source]);
}

/// The bullets of Djot, `-`, `*` and `+`, have a list style each, so an exporter
/// can tell from the style which one it was.
pub proof fn bullets_have_a_style_each(a: char, b: char)
    requires
        a == '-' || a == '*' || a == '+',
        b == '-' || b == '*' || b == '+',
        bullet_style(a) == bullet_style(b),
    ensures
        a == b,
{
}

// ─── What the options of Djot gate ───────────────────────────────────

/// A block without the styles that Djot's block attributes give it.
pub open spec fn bare_block(block: BlockModel) -> BlockModel {
    BlockModel {
        line_height: None,
        non_breakable_lines: None,
        page_break_before: None,
        direction: None,
        background_color: None,
        alignment: None,
        top_margin: None,
        text_indent: None,
        semantic_role: None,
        ..block
    }
}

/// Blocks without their styles.
pub open spec fn bare_blocks(blocks: Seq<BlockModel>) -> Seq<BlockModel> {
    blocks.map_values(|block: BlockModel| bare_block(block))
}

/// An element without the styles of its blocks.
pub open spec fn bare_element(element: ElementModel) -> ElementModel {
    match element {
        ElementModel::Block(block) => ElementModel::Block(bare_block(block)),
        ElementModel::Table(table) => ElementModel::Table(table),
        ElementModel::FootnoteDefinition { label, blocks } => ElementModel::FootnoteDefinition {
            label,
            blocks: bare_blocks(blocks),
        },
    }
}

/// A document without the styles of its blocks.
pub open spec fn bare_elements(elements: Seq<ElementModel>) -> Seq<ElementModel> {
    elements.map_values(|element: ElementModel| bare_element(element))
}

/// Whether two states of the reader differ in styles alone.
spec fn alike(s: DjotState, t: DjotState) -> bool {
    &&& bare_elements(s.elements) == bare_elements(t.elements)
    &&& s.spans == t.spans
    &&& s.heading == t.heading
    &&& s.is_code_block == t.is_code_block
    &&& s.code_language == t.code_language
    &&& s.blockquote_depth == t.blockquote_depth
    &&& s.marks == t.marks
    &&& s.image == t.image
    &&& s.lists == t.lists
    &&& s.item == t.item
    &&& s.table == t.table
    &&& s.skip == t.skip
    &&& s.footnote == t.footnote
    &&& djot_footnote_within(s)
    &&& djot_footnote_within(t)
}

proof fn bare_lengths(a: Seq<ElementModel>, b: Seq<ElementModel>)
    requires
        bare_elements(a) == bare_elements(b),
    ensures
        a.len() == b.len(),
        forall|i: int| 0 <= i < a.len() ==> bare_element(#[trigger] a[i]) == bare_element(b[i]),
{
    assert(bare_elements(a).len() == a.len());
    assert forall|i: int| 0 <= i < a.len() implies bare_element(#[trigger] a[i]) == bare_element(
        b[i],
    ) by {
        assert(bare_elements(a)[i] == bare_elements(b)[i]);
    }
}

proof fn alike_pushed(a: Seq<ElementModel>, b: Seq<ElementModel>, x: ElementModel, y: ElementModel)
    requires
        bare_elements(a) == bare_elements(b),
        bare_element(x) == bare_element(y),
    ensures
        bare_elements(a.push(x)) == bare_elements(b.push(y)),
{
    bare_lengths(a, b);
    assert(bare_elements(a.push(x)) =~= bare_elements(b.push(y)));
}

proof fn alike_blocks_among(a: Seq<ElementModel>, b: Seq<ElementModel>)
    requires
        bare_elements(a) == bare_elements(b),
    ensures
        bare_blocks(blocks_among(a)) == bare_blocks(blocks_among(b)),
    decreases a.len(),
{
    bare_lengths(a, b);
    if a.len() > 0 {
        let n = a.len() - 1;
        assert(bare_element(a[n]) == bare_element(b[n]));
        assert(bare_elements(a.drop_last()) =~= bare_elements(b.drop_last()));
        alike_blocks_among(a.drop_last(), b.drop_last());
        let p = blocks_among(a.drop_last());
        let q = blocks_among(b.drop_last());
        assert(bare_blocks(p).len() == p.len() && bare_blocks(q).len() == q.len());
        assert forall|i: int| 0 <= i < p.len() implies bare_block(#[trigger] p[i]) == bare_block(
            q[i],
        ) by {
            assert(bare_blocks(p)[i] == bare_blocks(q)[i]);
        }
        assert(bare_blocks(blocks_among(a)) =~= bare_blocks(blocks_among(b)));
    }
}

proof fn alike_lifted(a: Seq<ElementModel>, b: Seq<ElementModel>, label: Seq<char>, start: int)
    requires
        bare_elements(a) == bare_elements(b),
        0 <= start <= a.len(),
    ensures
        bare_elements(lift_footnote(a, label, start)) == bare_elements(
            lift_footnote(b, label, start),
        ),
{
    bare_lengths(a, b);
    assert(bare_elements(a.take(start)) =~= bare_elements(b.take(start)));
    assert(bare_elements(a.skip(start)) =~= bare_elements(b.skip(start)));
    alike_blocks_among(a.skip(start), b.skip(start));
    alike_pushed(
        a.take(start),
        b.take(start),
        lift_footnote(a, label, start).last(),
        lift_footnote(b, label, start).last(),
    );
}

proof fn alike_closed_spans(s: DjotState, t: DjotState, x: BlockModel, y: BlockModel)
    requires
        alike(s, t),
        bare_block(x) == bare_block(y),
    ensures
        alike(close_spans(s, x), close_spans(t, y)),
{
    bare_lengths(s.elements, t.elements);
    alike_pushed(s.elements, t.elements, ElementModel::Block(x), ElementModel::Block(y));
}

proof fn alike_flushed(s: DjotState, t: DjotState)
    requires
        alike(s, t),
    ensures
        alike(flush_item(s), flush_item(t)),
{
    alike_closed_spans(s, t, item_block(s, no_style()), item_block(t, no_style()));
}

proof fn alike_opened(
    s: DjotState,
    t: DjotState,
    tag: DjotTag,
    text: Seq<char>,
    attrs: Seq<(Seq<char>, Seq<char>)>,
    a: DjotImportOptions,
    b: DjotImportOptions,
)
    requires
        alike(s, t),
    ensures
        alike(djot_open(s, tag, text, attrs, a), djot_open(t, tag, text, attrs, b)),
{
    match tag {
        DjotTag::ListItem | DjotTag::TaskListItem(_) => {
            alike_flushed(s, t);
        },
        DjotTag::Footnote => {
            alike_flushed(s, t);
            bare_lengths(flush_item(s).elements, flush_item(t).elements);
        },
        _ => {},
    }
}

proof fn alike_closed(s: DjotState, t: DjotState, tag: DjotTag)
    requires
        alike(s, t),
    ensures
        alike(djot_close(s, tag), djot_close(t, tag)),
{
    alike_flushed(s, t);
    bare_lengths(s.elements, t.elements);
    bare_lengths(flush_item(s).elements, flush_item(t).elements);
    match tag {
        DjotTag::Heading(_) => {
            alike_closed_spans(
                s,
                t,
                BlockModel { heading_level: s.heading, ..styled_block(s, s.style) },
                BlockModel { heading_level: t.heading, ..styled_block(t, t.style) },
            );
        },
        DjotTag::Paragraph => {
            alike_closed_spans(s, t, item_block(s, s.style), item_block(t, t.style));
        },
        DjotTag::CodeBlock => {
            let block = BlockModel {
                spans: without_final_newline(s.spans),
                is_code_block: true,
                code_language: s.code_language,
                ..styled_block(s, no_style())
            };
            alike_closed_spans(s, t, block, block);
        },
        DjotTag::Table => {
            let element = djot_close(s, tag).elements.last();
            alike_pushed(s.elements, t.elements, element, element);
        },
        DjotTag::Footnote => {
            if let Some((label, start)) = s.footnote {
                alike_lifted(flush_item(s).elements, flush_item(t).elements, label, start);
            }
        },
        _ => {},
    }
}

proof fn alike_stepped(
    s: DjotState,
    t: DjotState,
    event: DjotEventModel,
    a: DjotImportOptions,
    b: DjotImportOptions,
)
    requires
        alike(s, t),
    ensures
        alike(djot_step(s, event, a), djot_step(t, event, b)),
{
    match event {
        DjotEventModel::Start(tag, text, attrs) => {
            alike_opened(s, t, tag, text, attrs, a, b);
        },
        DjotEventModel::End(tag) => {
            alike_closed(s, t, tag);
        },
        DjotEventModel::Atom(_) => {
            let x = BlockModel {
                is_code_block: s.is_code_block,
                code_language: s.code_language,
                ..item_block(s, s.style)
            };
            let y = BlockModel {
                is_code_block: t.is_code_block,
                code_language: t.code_language,
                ..item_block(t, t.style)
            };
            alike_closed_spans(s, t, x, y);
        },
        _ => {},
    }
}

proof fn alike_after(events: Seq<DjotEventModel>, a: DjotImportOptions, b: DjotImportOptions)
    ensures
        alike(djot_after(events, a), djot_after(events, b)),
    decreases events.len(),
{
    if events.len() > 0 {
        let rest = events.drop_last();
        alike_after(rest, a, b);
        alike_stepped(djot_after(rest, a), djot_after(rest, b), events.last(), a, b);
    }
}

/// The options of a Djot import gate the styles of blocks and nothing else: under any
/// two, a document has the same blocks, spans, lists, tables and footnotes.
pub proof fn options_gate_styles_alone(
    source: Seq<char>,
    events: Seq<DjotEventModel>,
    a: DjotImportOptions,
    b: DjotImportOptions,
)
    ensures
        bare_elements(djot_document(source, events, a)) == bare_elements(
            djot_document(source, events, b),
        ),
{
    alike_after(events, a, b);
    let s = djot_after(events, a);
    let t = djot_after(events, b);
    let x = djot_rest(s);
    let y = djot_rest(t);
    if s.spans.len() > 0 {
        alike_pushed(s.elements, t.elements, x.last(), y.last());
    }
    bare_lengths(x, y);
    assert(bare_elements(djot_elements(events, a)) =~= bare_elements(djot_elements(events, b)));
}

/// Without any option, a block attribute gives no style.
pub proof fn no_option_no_style(attrs: Seq<(Seq<char>, Seq<char>)>, opts: DjotImportOptions)
    requires
        !opts.alignment && !opts.line_height && !opts.direction && !opts.non_breakable_lines,
        !opts.page_break_before && !opts.background_color && !opts.top_margin,
        !opts.text_indent && !opts.semantic_role,
    ensures
        attrs_style(attrs, opts) == no_style(),
{
    assert(attrs_style(attrs, opts) =~= no_style());
}

} // verus!
