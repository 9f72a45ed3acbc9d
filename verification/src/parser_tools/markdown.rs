//! The Markdown reader.
use pulldown_cmark::{CodeBlockKind, Event, Options, Parser, Tag, TagEnd};
use vstd::prelude::*;

use crate::chars::{is_white_space, white_space};
use crate::entities::ListStyle;
use crate::models::{group_deep_view, take_vec};
use crate::order::{add_text, ascending, contains_text, with_text};
use crate::parser_tools::content_parser::{
    empty_span, lift_footnote, lift_into_footnote, one_more, or_empty_paragraph, paragraph,
    strip_final_newline, without_final_newline, BlockModel, ElementModel, ParsedBlock,
    ParsedElement, ParsedImage, ParsedSpan, ParsedTable, ParsedTableCell, PictureModel, SpanModel,
    TableModel,
};
use crate::text::{from_chars, to_chars};

verus! {

broadcast use group_deep_view;

/// The number of a heading level, as blocks hold it.
pub fn heading_level_to_i64(level: u8) -> (number: i64)
    ensures
        number == level,
{
    level as i64
}

/// The construct that a start or an end event of Markdown speaks of. Those that
/// the document model cannot hold are all `Other`.
#[derive(Clone, Copy, Debug, PartialEq, Eq, Structural)]
pub enum MarkdownTag {
    Paragraph,
    /// The level of the heading, from 1 to 6.
    Heading(u8),
    BlockQuote,
    CodeBlock,
    /// `true` for an ordered list.
    List(bool),
    Item,
    FootnoteDefinition,
    Table,
    TableHead,
    TableRow,
    TableCell,
    Emphasis,
    Strong,
    Strikethrough,
    Link,
    Image,
    Other,
}

/// One event of a Markdown document, in document order.
#[derive(Debug, PartialEq, Eq)]
pub enum MarkdownEvent {
    /// A construct begins. The text is the target of a link or an image, the
    /// label of a footnote definition, or the language of a fenced code block;
    /// it is empty for everything else.
    Start(MarkdownTag, String),
    End(MarkdownTag),
    Text(String),
    Code(String),
    FootnoteReference(String),
    SoftBreak,
    HardBreak,
    /// An event without content that the document model can hold.
    Other,
}

/// What a [`MarkdownEvent`] says.
pub enum MarkdownEventModel {
    Start(MarkdownTag, Seq<char>),
    End(MarkdownTag),
    Text(Seq<char>),
    Code(Seq<char>),
    FootnoteReference(Seq<char>),
    SoftBreak,
    HardBreak,
    Other,
}

impl DeepView for MarkdownEvent {
    type V = MarkdownEventModel;

    open spec fn deep_view(&self) -> MarkdownEventModel {
        match *self {
            MarkdownEvent::Start(tag, text) => MarkdownEventModel::Start(tag, text@),
            MarkdownEvent::End(tag) => MarkdownEventModel::End(tag),
            MarkdownEvent::Text(text) => MarkdownEventModel::Text(text@),
            MarkdownEvent::Code(text) => MarkdownEventModel::Code(text@),
            MarkdownEvent::FootnoteReference(label) => MarkdownEventModel::FootnoteReference(
                label@,
            ),
            MarkdownEvent::SoftBreak => MarkdownEventModel::SoftBreak,
            MarkdownEvent::HardBreak => MarkdownEventModel::HardBreak,
            MarkdownEvent::Other => MarkdownEventModel::Other,
        }
    }
}

// ─── Footnote references without a definition ────────────────────────

/// The first position, from `from` on, at which a text holds `[^`.
pub open spec fn find_opening(text: Seq<char>, from: int) -> Option<int>
    decreases text.len() - from,
{
    if from < 0 || from + 1 >= text.len() {
        None
    } else if text[from] == '[' && text[from + 1] == '^' {
        Some(from)
    } else {
        find_opening(text, from + 1)
    }
}

/// The first position, from `from` on, at which a text holds a character.
pub open spec fn find_char(text: Seq<char>, from: int, c: char) -> Option<int>
    decreases text.len() - from,
{
    if from < 0 || from >= text.len() {
        None
    } else if text[from] == c {
        Some(from)
    } else {
        find_char(text, from + 1, c)
    }
}

/// Whether what stands between `[^` and `]` can be the label of a reference.
pub open spec fn is_label(label: Seq<char>) -> bool {
    label.len() > 0 && forall|i: int| 0 <= i < label.len() ==> !white_space(#[trigger] label[i])
}

/// The labels of the `[^label]` spans of a text from `from` on, those that look
/// like the beginning of a definition (`[^label]:`) left out.
pub open spec fn referenced_labels(text: Seq<char>, from: int) -> Seq<Seq<char>>
    decreases text.len() - from,
{
    match find_opening(text, from) {
        None => Seq::empty(),
        Some(open) => match find_char(text, open + 2, ']') {
            None => Seq::empty(),
            Some(close) => {
                let label = text.subrange(open + 2, close);
                let defines = close + 1 < text.len() && text[close + 1] == ':';
                let rest = if from <= close < text.len() {
                    referenced_labels(text, close + 1)
                } else {
                    Seq::empty()
                };
                if is_label(label) && !defines {
                    seq![label] + rest
                } else {
                    rest
                }
            },
        },
    }
}

/// The labels of the footnote definitions that a document's events hold.
pub open spec fn defined_labels(events: Seq<MarkdownEventModel>) -> Seq<Seq<char>>
    decreases events.len(),
{
    if events.len() == 0 {
        Seq::empty()
    } else {
        let rest = defined_labels(events.drop_last());
        match events.last() {
            MarkdownEventModel::Start(MarkdownTag::FootnoteDefinition, label) => rest.push(label),
            _ => rest,
        }
    }
}

/// The labels that are not among `defined`, in order and each once.
pub open spec fn undefined_labels(labels: Seq<Seq<char>>, defined: Seq<Seq<char>>) -> Seq<
    Seq<char>,
>
    decreases labels.len(),
{
    if labels.len() == 0 {
        Seq::empty()
    } else {
        let rest = undefined_labels(labels.drop_last(), defined);
        if defined.contains(labels.last()) {
            rest
        } else {
            with_text(rest, labels.last())
        }
    }
}

/// The labels that a text references and its events do not define, in order.
pub open spec fn dangling_labels(text: Seq<char>, events: Seq<MarkdownEventModel>) -> Seq<
    Seq<char>,
> {
    undefined_labels(referenced_labels(text, 0), defined_labels(events))
}

/// The dangling labels of a document are in order, each once, and are exactly
/// the labels that it references and does not define.
pub proof fn undefined_labels_are_the_difference(
    labels: Seq<Seq<char>>,
    defined: Seq<Seq<char>>,
)
    ensures
        ascending(undefined_labels(labels, defined)),
        forall|label: Seq<char>| #[trigger]
            undefined_labels(labels, defined).contains(label) <==> labels.contains(label)
                && !defined.contains(label),
    decreases labels.len(),
{
    if labels.len() > 0 {
        let rest = labels.drop_last();
        undefined_labels_are_the_difference(rest, defined);
        crate::order::with_text_keeps_order(undefined_labels(rest, defined), labels.last());
        assert forall|label: Seq<char>| #[trigger]
            undefined_labels(labels, defined).contains(label) <==> labels.contains(label)
                && !defined.contains(label) by {
            if labels.contains(label) {
                let i = choose|i: int| 0 <= i < labels.len() && labels[i] == label;
                if i < rest.len() {
                    assert(rest[i] == label);
                }
            }
            if rest.contains(label) {
                let i = choose|i: int| 0 <= i < rest.len() && rest[i] == label;
                assert(labels[i] == label);
            }
            assert(labels[labels.len() - 1] == labels.last());
        }
    }
}

/// The position of the first `[^` from `from` on.
fn find_opening_from(text: &Vec<char>, from: usize) -> (at: Option<usize>)
    requires
        from <= text@.len(),
    ensures
        match at {
            Some(i) => find_opening(text@, from as int) == Some(i as int),
            None => find_opening(text@, from as int) is None,
        },
        at matches Some(i) ==> from <= i && i + 1 < text@.len(),
{
    let mut i: usize = from;
    while i < text.len() && i + 1 < text.len()
        invariant
            from <= i <= text@.len(),
            find_opening(text@, from as int) == find_opening(text@, i as int),
        decreases text@.len() - i,
    {
        if text[i] == '[' && text[i + 1] == '^' {
            return Some(i);
        }
        i += 1;
    }
    None
}

/// The position of the first such character from `from` on.
fn find_char_from(text: &Vec<char>, from: usize, c: char) -> (at: Option<usize>)
    requires
        from <= text@.len(),
    ensures
        match at {
            Some(i) => find_char(text@, from as int, c) == Some(i as int),
            None => find_char(text@, from as int, c) is None,
        },
        at matches Some(i) ==> from <= i < text@.len(),
{
    let mut i: usize = from;
    while i < text.len()
        invariant
            from <= i <= text@.len(),
            find_char(text@, from as int, c) == find_char(text@, i as int, c),
        decreases text@.len() - i,
    {
        if text[i] == c {
            return Some(i);
        }
        i += 1;
    }
    None
}

/// The part of a text between two positions, if it can be the label of a reference.
fn label_between(text: &Vec<char>, start: usize, end: usize) -> (label: Option<String>)
    requires
        start <= end <= text@.len(),
    ensures
        match label {
            Some(l) => l@ == text@.subrange(start as int, end as int) && is_label(l@),
            None => !is_label(text@.subrange(start as int, end as int)),
        },
{
    let ghost whole = text@.subrange(start as int, end as int);
    let mut i: usize = start;
    while i < end
        invariant
            start <= i <= end <= text@.len(),
            whole == text@.subrange(start as int, end as int),
            forall|j: int| 0 <= j < i - start ==> !white_space(#[trigger] whole[j]),
        decreases end - i,
    {
        if is_white_space(text[i]) {
            assert(white_space(whole[i - start]));
            return None;
        }
        i += 1;
    }
    if start == end {
        return None;
    }
    Some(from_chars(crate::chars::part(text.as_slice(), start, end).as_slice()))
}

/// The labels of the `[^label]` spans of a text.
fn scan_references(markdown: &str) -> (labels: Vec<String>)
    ensures
        labels.deep_view() == referenced_labels(markdown@, 0),
{
    let text = to_chars(markdown);
    let mut labels: Vec<String> = Vec::new();
    let mut from: usize = 0;
    assert(Seq::<Seq<char>>::empty() + referenced_labels(text@, 0) =~= referenced_labels(text@, 0));
    loop
        invariant
            text@ == markdown@,
            from <= text@.len(),
            labels.deep_view() + referenced_labels(text@, from as int) == referenced_labels(
                text@,
                0,
            ),
        ensures
            labels.deep_view() == referenced_labels(text@, 0),
        decreases text@.len() - from,
    {
        let len: usize = text.len();
        let ghost done = labels.deep_view();
        let open: usize = match find_opening_from(&text, from) {
            Some(open) => open,
            None => {
                assert(done + Seq::<Seq<char>>::empty() =~= done);
                break ;
            },
        };
        let close: usize = match find_char_from(&text, open + 2, ']') {
            Some(close) => close,
            None => {
                assert(done + Seq::<Seq<char>>::empty() =~= done);
                break ;
            },
        };
        assert(close < len);
        let defines: bool = close + 1 < len && text[close + 1] == ':';
        let ghost rest = referenced_labels(text@, close + 1);
        if let Some(label) = label_between(&text, open + 2, close) {
            if !defines {
                labels.push(label);
                assert(done + (seq![label@] + rest) =~= done.push(label@) + rest);
            }
        }
        from = close + 1;
    }
    labels
}

/// The labels that `markdown` references and `events`, the events of that same
/// text, do not define. In order, each once.
pub fn dangling_labels_of(markdown: &str, events: &Vec<MarkdownEvent>) -> (labels: Vec<String>)
    ensures
        labels.deep_view() == dangling_labels(markdown@, events.deep_view()),
{
    let ghost all = events.deep_view();
    let mut defined: Vec<String> = Vec::new();
    for i in 0..events.len()
        invariant
            all == events.deep_view(),
            defined.deep_view() == defined_labels(all.take(i as int)),
    {
        proof {
            assert(all.take(i + 1).drop_last() =~= all.take(i as int));
            assert(all.take(i + 1).last() == events[i as int].deep_view());
        }
        if let MarkdownEvent::Start(tag, label) = &events[i] {
            if *tag == MarkdownTag::FootnoteDefinition {
                defined.push(label.clone());
            }
        }
    }
    assert(all.take(all.len() as int) =~= all);
    let referenced = scan_references(markdown);
    let ghost wanted = referenced.deep_view();
    let mut labels: Vec<String> = Vec::new();
    for i in 0..referenced.len()
        invariant
            wanted == referenced.deep_view(),
            defined.deep_view() == defined_labels(all),
            labels.deep_view() == undefined_labels(wanted.take(i as int), defined_labels(all)),
    {
        proof {
            assert(wanted.take(i + 1).drop_last() =~= wanted.take(i as int));
            assert(wanted.take(i + 1).last() == referenced[i as int]@);
        }
        if !contains_text(&defined, referenced[i].as_str()) {
            add_text(&mut labels, referenced[i].clone());
        }
    }
    assert(wanted.take(wanted.len() as int) =~= wanted);
    labels
}

/// A text with an empty footnote definition behind it for each label.
pub open spec fn with_definitions(text: Seq<char>, labels: Seq<Seq<char>>) -> Seq<char>
    decreases labels.len(),
{
    if labels.len() == 0 {
        text
    } else {
        with_definitions(text, labels.drop_last()) + "\n\n[^"@ + labels.last() + "]:\n"@
    }
}

/// A text with an empty footnote definition behind it for each label.
pub fn augmented(markdown: &str, labels: &Vec<String>) -> (source: String)
    ensures
        source@ == with_definitions(markdown@, labels.deep_view()),
{
    let ghost all = labels.deep_view();
    let mut source = markdown.to_string();
    for i in 0..labels.len()
        invariant
            all == labels.deep_view(),
            source@ == with_definitions(markdown@, all.take(i as int)),
    {
        proof {
            assert(all.take(i + 1).drop_last() =~= all.take(i as int));
            assert(all.take(i + 1).last() == labels[i as int]@);
        }
        source.push_str("\n\n[^");
        source.push_str(labels[i].as_str());
        source.push_str("]:\n");
    }
    assert(all.take(all.len() as int) =~= all);
    source
}

// ─── From events to elements ─────────────────────────────────────────

/// What the reader knows between two events.
#[verifier::ext_equal]
pub struct MarkdownState {
    /// What was read so far.
    pub elements: Seq<ElementModel>,
    /// The spans of the block that is open.
    pub spans: Seq<SpanModel>,
    pub heading: Option<i64>,
    pub list_style: Option<ListStyle>,
    pub list_indent: int,
    pub is_code_block: bool,
    pub code_language: Option<Seq<char>>,
    pub blockquote_depth: int,
    pub in_block: bool,
    pub bold: bool,
    pub italic: bool,
    pub strikeout: bool,
    pub link: Option<Seq<char>>,
    /// The image that is open; text goes to its description.
    pub image: Option<PictureModel>,
    /// The footnote definition that is open: its label, and where its blocks begin.
    pub footnote: Option<(Seq<char>, int)>,
    pub lists: Seq<ListStyle>,
    pub in_table: bool,
    pub in_table_head: bool,
    pub rows: Seq<Seq<Seq<SpanModel>>>,
    pub row: Seq<Seq<SpanModel>>,
    pub cell: Seq<SpanModel>,
    pub header_rows: int,
}

/// The state before the first event.
pub open spec fn markdown_start() -> MarkdownState {
    MarkdownState {
        elements: Seq::empty(),
        spans: Seq::empty(),
        heading: None,
        list_style: None,
        list_indent: 0,
        is_code_block: false,
        code_language: None,
        blockquote_depth: 0,
        in_block: false,
        bold: false,
        italic: false,
        strikeout: false,
        link: None,
        image: None,
        footnote: None,
        lists: Seq::empty(),
        in_table: false,
        in_table_head: false,
        rows: Seq::empty(),
        row: Seq::empty(),
        cell: Seq::empty(),
        header_rows: 0,
    }
}

/// The open spans as a block of the open list, at the open blockquote depth.
pub open spec fn open_block(s: MarkdownState) -> BlockModel {
    BlockModel {
        list_style: s.list_style,
        list_indent: s.list_indent,
        blockquote_depth: s.blockquote_depth,
        ..paragraph(s.spans)
    }
}

/// Closes the open spans into a block.
pub open spec fn close_block(s: MarkdownState, block: BlockModel) -> MarkdownState {
    MarkdownState {
        elements: s.elements.push(ElementModel::Block(block)),
        spans: Seq::empty(),
        ..s
    }
}

/// A span in the open formatting.
pub open spec fn styled_span(s: MarkdownState, text: Seq<char>, code: bool) -> SpanModel {
    SpanModel {
        text,
        bold: s.bold,
        italic: s.italic,
        strikeout: s.strikeout,
        code,
        link_href: s.link,
        ..empty_span()
    }
}

/// Adds a span to the open table cell or the open block.
pub open spec fn put_span(s: MarkdownState, span: SpanModel, opens_block: bool) -> MarkdownState {
    if s.in_table {
        MarkdownState { cell: s.cell.push(span), ..s }
    } else {
        MarkdownState { spans: s.spans.push(span), in_block: s.in_block || opens_block, ..s }
    }
}

/// A construct begins.
pub open spec fn markdown_open(s: MarkdownState, tag: MarkdownTag, text: Seq<char>) -> MarkdownState {
    match tag {
        MarkdownTag::Paragraph => MarkdownState {
            in_block: true,
            heading: None,
            is_code_block: false,
            ..s
        },
        MarkdownTag::Heading(level) => MarkdownState {
            in_block: true,
            heading: Some(level as i64),
            is_code_block: false,
            ..s
        },
        MarkdownTag::List(ordered) => MarkdownState {
            lists: s.lists.push(
                if ordered {
                    ListStyle::Decimal
                } else {
                    ListStyle::Disc
                },
            ),
            ..s
        },
        MarkdownTag::Item => {
            let flushed = if s.spans.len() > 0 {
                close_block(s, open_block(s))
            } else {
                s
            };
            MarkdownState {
                in_block: true,
                list_style: if s.lists.len() == 0 {
                    None
                } else {
                    Some(s.lists.last())
                },
                list_indent: if s.lists.len() == 0 {
                    0
                } else {
                    (s.lists.len() - 1) % 0x1_0000_0000
                },
                ..flushed
            }
        },
        MarkdownTag::CodeBlock => MarkdownState {
            in_block: true,
            is_code_block: true,
            code_language: if text.len() > 0 {
                Some(text)
            } else {
                None
            },
            ..s
        },
        MarkdownTag::Table => MarkdownState {
            in_table: true,
            in_table_head: false,
            rows: Seq::empty(),
            row: Seq::empty(),
            cell: Seq::empty(),
            header_rows: 0,
            ..s
        },
        MarkdownTag::TableHead => MarkdownState { in_table_head: true, row: Seq::empty(), ..s },
        MarkdownTag::TableRow => MarkdownState { row: Seq::empty(), ..s },
        MarkdownTag::TableCell => MarkdownState { cell: Seq::empty(), ..s },
        MarkdownTag::Emphasis => MarkdownState { italic: true, ..s },
        MarkdownTag::Strong => MarkdownState { bold: true, ..s },
        MarkdownTag::Strikethrough => MarkdownState { strikeout: true, ..s },
        MarkdownTag::Link => MarkdownState { link: Some(text), ..s },
        MarkdownTag::Image => MarkdownState {
            image: Some(PictureModel { src: text, alt: Seq::empty(), width: 0, height: 0 }),
            ..s
        },
        MarkdownTag::BlockQuote => MarkdownState {
            blockquote_depth: one_more(s.blockquote_depth, u32::MAX as int),
            ..s
        },
        MarkdownTag::FootnoteDefinition => {
            let flushed = flush_for_footnote(s);
            MarkdownState {
                footnote: Some((text, flushed.elements.len() as int)),
                ..flushed
            }
        },
        MarkdownTag::Other => s,
    }
}

/// Closes the spans that are left open where a footnote definition begins or ends.
pub open spec fn flush_for_footnote(s: MarkdownState) -> MarkdownState {
    if s.spans.len() > 0 {
        MarkdownState {
            heading: None,
            ..close_block(s, BlockModel { heading_level: s.heading, ..open_block(s) })
        }
    } else {
        s
    }
}

/// A construct ends.
pub open spec fn markdown_close(s: MarkdownState, tag: MarkdownTag) -> MarkdownState {
    match tag {
        MarkdownTag::Paragraph => {
            let closed = if s.spans.len() > 0 || s.in_block {
                MarkdownState {
                    heading: None,
                    ..close_block(s, BlockModel { heading_level: s.heading, ..open_block(s) })
                }
            } else {
                s
            };
            MarkdownState { in_block: false, list_style: None, ..closed }
        },
        MarkdownTag::Heading(_) => MarkdownState {
            heading: None,
            in_block: false,
            ..close_block(
                s,
                BlockModel {
                    heading_level: s.heading,
                    blockquote_depth: s.blockquote_depth,
                    ..paragraph(s.spans)
                },
            )
        },
        MarkdownTag::List(_) => MarkdownState {
            lists: if s.lists.len() > 0 {
                s.lists.drop_last()
            } else {
                s.lists
            },
            ..s
        },
        MarkdownTag::Item => {
            let closed = if s.spans.len() > 0 {
                close_block(s, open_block(s))
            } else {
                s
            };
            MarkdownState { in_block: false, list_style: None, ..closed }
        },
        MarkdownTag::CodeBlock => MarkdownState {
            code_language: None,
            in_block: false,
            is_code_block: false,
            ..close_block(
                s,
                BlockModel {
                    is_code_block: true,
                    code_language: s.code_language,
                    blockquote_depth: s.blockquote_depth,
                    ..paragraph(without_final_newline(s.spans))
                },
            )
        },
        MarkdownTag::Table => MarkdownState {
            elements: s.elements.push(
                ElementModel::Table(
                    TableModel {
                        header_rows: s.header_rows,
                        rows: s.rows,
                        blockquote_depth: s.blockquote_depth,
                    },
                ),
            ),
            rows: Seq::empty(),
            in_table: false,
            ..s
        },
        MarkdownTag::TableHead => MarkdownState {
            rows: s.rows.push(s.row),
            row: Seq::empty(),
            header_rows: one_more(s.header_rows, usize::MAX as int),
            in_table_head: false,
            ..s
        },
        MarkdownTag::TableRow => if s.in_table_head {
            s
        } else {
            MarkdownState { rows: s.rows.push(s.row), row: Seq::empty(), ..s }
        },
        MarkdownTag::TableCell => MarkdownState {
            row: s.row.push(s.cell),
            cell: Seq::empty(),
            ..s
        },
        MarkdownTag::Emphasis => MarkdownState { italic: false, ..s },
        MarkdownTag::Strong => MarkdownState { bold: false, ..s },
        MarkdownTag::Strikethrough => MarkdownState { strikeout: false, ..s },
        MarkdownTag::Link => MarkdownState { link: None, ..s },
        MarkdownTag::Image => match s.image {
            Some(image) => put_span(
                MarkdownState { image: None, ..s },
                SpanModel { image: Some(image), ..styled_span(s, Seq::empty(), false) },
                true,
            ),
            None => s,
        },
        MarkdownTag::BlockQuote => MarkdownState {
            blockquote_depth: if s.blockquote_depth > 0 {
                s.blockquote_depth - 1
            } else {
                0
            },
            ..s
        },
        MarkdownTag::FootnoteDefinition => {
            let flushed = flush_for_footnote(s);
            match s.footnote {
                Some((label, start)) => MarkdownState {
                    elements: lift_footnote(flushed.elements, label, start),
                    footnote: None,
                    ..flushed
                },
                None => flushed,
            }
        },
        MarkdownTag::Other => s,
    }
}

/// The next event.
pub open spec fn markdown_step(s: MarkdownState, event: MarkdownEventModel) -> MarkdownState {
    match event {
        MarkdownEventModel::Start(tag, text) => markdown_open(s, tag, text),
        MarkdownEventModel::End(tag) => markdown_close(s, tag),
        MarkdownEventModel::Text(text) => match s.image {
            Some(image) => MarkdownState {
                image: Some(PictureModel { alt: image.alt + text, ..image }),
                ..s
            },
            None => put_span(s, styled_span(s, text, s.is_code_block), true),
        },
        MarkdownEventModel::Code(text) => put_span(s, styled_span(s, text, true), true),
        MarkdownEventModel::FootnoteReference(label) => put_span(
            s,
            SpanModel { footnote_ref: Some(label), ..styled_span(s, Seq::empty(), false) },
            true,
        ),
        MarkdownEventModel::SoftBreak => put_span(s, styled_span(s, seq![' '], false), false),
        MarkdownEventModel::HardBreak => if s.spans.len() > 0 || s.in_block {
            MarkdownState {
                heading: None,
                ..close_block(
                    s,
                    BlockModel {
                        heading_level: s.heading,
                        is_code_block: s.is_code_block,
                        code_language: s.code_language,
                        ..open_block(s)
                    },
                )
            }
        } else {
            s
        },
        MarkdownEventModel::Other => s,
    }
}

/// The state after events.
pub open spec fn markdown_after(events: Seq<MarkdownEventModel>) -> MarkdownState
    decreases events.len(),
{
    if events.len() == 0 {
        markdown_start()
    } else {
        markdown_step(markdown_after(events.drop_last()), events.last())
    }
}

/// Elements without the footnote definitions of some labels.
pub open spec fn without_definitions(
    elements: Seq<ElementModel>,
    labels: Seq<Seq<char>>,
) -> Seq<ElementModel>
    decreases elements.len(),
{
    if elements.len() == 0 {
        elements
    } else {
        let rest = without_definitions(elements.drop_last(), labels);
        match elements.last() {
            ElementModel::FootnoteDefinition { label, .. } if labels.contains(label) => rest,
            _ => rest.push(elements.last()),
        }
    }
}

/// What is left open when a document ends becomes its last block.
pub open spec fn markdown_rest(s: MarkdownState) -> Seq<ElementModel> {
    if s.spans.len() > 0 {
        s.elements.push(
            ElementModel::Block(
                BlockModel {
                    heading_level: s.heading,
                    is_code_block: s.is_code_block,
                    code_language: s.code_language,
                    ..open_block(s)
                },
            ),
        )
    } else {
        s.elements
    }
}

/// The elements of a document with these events, the footnote definitions of
/// `dangling` labels left out.
pub open spec fn markdown_elements(
    events: Seq<MarkdownEventModel>,
    dangling: Seq<Seq<char>>,
) -> Seq<ElementModel> {
    or_empty_paragraph(without_definitions(markdown_rest(markdown_after(events)), dangling))
}

/// The reader between two events.
struct MarkdownReader {
    elements: Vec<ParsedElement>,
    spans: Vec<ParsedSpan>,
    heading: Option<i64>,
    list_style: Option<ListStyle>,
    list_indent: u32,
    is_code_block: bool,
    code_language: Option<String>,
    blockquote_depth: u32,
    in_block: bool,
    bold: bool,
    italic: bool,
    strikeout: bool,
    link: Option<String>,
    image: Option<ParsedImage>,
    footnote: Option<(String, usize)>,
    lists: Vec<ListStyle>,
    in_table: bool,
    in_table_head: bool,
    rows: Vec<Vec<ParsedTableCell>>,
    row: Vec<ParsedTableCell>,
    cell: Vec<ParsedSpan>,
    header_rows: usize,
}

impl DeepView for MarkdownReader {
    type V = MarkdownState;

    closed spec fn deep_view(&self) -> MarkdownState {
        MarkdownState {
            elements: self.elements.deep_view(),
            spans: self.spans.deep_view(),
            heading: self.heading,
            list_style: self.list_style,
            list_indent: self.list_indent as int,
            is_code_block: self.is_code_block,
            code_language: self.code_language.deep_view(),
            blockquote_depth: self.blockquote_depth as int,
            in_block: self.in_block,
            bold: self.bold,
            italic: self.italic,
            strikeout: self.strikeout,
            link: self.link.deep_view(),
            image: self.image.deep_view(),
            footnote: match self.footnote {
                Some((label, start)) => Some((label@, start as int)),
                None => None,
            },
            lists: self.lists@,
            in_table: self.in_table,
            in_table_head: self.in_table_head,
            rows: self.rows.deep_view(),
            row: self.row.deep_view(),
            cell: self.cell.deep_view(),
            header_rows: self.header_rows as int,
        }
    }
}

/// Whether the open footnote definition begins within what was read.
pub open spec fn footnote_within(s: MarkdownState) -> bool {
    s.footnote matches Some((_, start)) ==> 0 <= start <= s.elements.len()
}

impl MarkdownReader {
    fn new() -> (reader: Self)
        ensures
            reader.deep_view() == markdown_start(),
    {
        let reader = MarkdownReader {
            elements: Vec::new(),
            spans: Vec::new(),
            heading: None,
            list_style: None,
            list_indent: 0,
            is_code_block: false,
            code_language: None,
            blockquote_depth: 0,
            in_block: false,
            bold: false,
            italic: false,
            strikeout: false,
            link: None,
            image: None,
            footnote: None,
            lists: Vec::new(),
            in_table: false,
            in_table_head: false,
            rows: Vec::new(),
            row: Vec::new(),
            cell: Vec::new(),
            header_rows: 0,
        };
        assert(reader.deep_view() =~= markdown_start());
        reader
    }

    /// The open spans as a block of the open list.
    fn take_block(&mut self) -> (block: ParsedBlock)
        ensures
            block.deep_view() == open_block(old(self).deep_view()),
            final(self).deep_view() == (MarkdownState {
                spans: Seq::empty(),
                ..old(self).deep_view()
            }),
    {
        let ghost before = self.deep_view();
        let mut block = ParsedBlock::paragraph(take_vec(&mut self.spans));
        block.list_style = self.list_style;
        block.list_indent = self.list_indent;
        block.blockquote_depth = self.blockquote_depth;
        assert(block.deep_view() =~= open_block(before));
        assert(self.deep_view() =~= (MarkdownState { spans: Seq::empty(), ..before }));
        block
    }

    /// Closes the open spans into a block, with the open heading.
    fn close_with_heading(&mut self)
        ensures
            final(self).deep_view() == (MarkdownState {
                heading: None,
                ..close_block(
                    old(self).deep_view(),
                    BlockModel {
                        heading_level: old(self).deep_view().heading,
                        ..open_block(old(self).deep_view())
                    },
                )
            }),
    {
        let mut block = self.take_block();
        block.heading_level = self.heading.take();
        self.elements.push(ParsedElement::Block(block));
        assert(self.deep_view() =~= (MarkdownState {
            heading: None,
            ..close_block(
                old(self).deep_view(),
                BlockModel {
                    heading_level: old(self).deep_view().heading,
                    ..open_block(old(self).deep_view())
                },
            )
        }));
    }

    /// Closes the open spans, if there are any, into a block of the open list.
    fn close_item(&mut self)
        ensures
            final(self).deep_view() == if old(self).deep_view().spans.len() > 0 {
                close_block(old(self).deep_view(), open_block(old(self).deep_view()))
            } else {
                old(self).deep_view()
            },
    {
        if self.spans.len() > 0 {
            let block = self.take_block();
            self.elements.push(ParsedElement::Block(block));
            assert(self.deep_view() =~= close_block(
                old(self).deep_view(),
                open_block(old(self).deep_view()),
            ));
        }
    }

    /// A span in the open formatting.
    fn span(&self, text: String, code: bool) -> (span: ParsedSpan)
        ensures
            span.deep_view() == styled_span(self.deep_view(), text@, code),
    {
        let mut span = ParsedSpan::default();
        span.text = text;
        span.bold = self.bold;
        span.italic = self.italic;
        span.strikeout = self.strikeout;
        span.code = code;
        span.link_href = self.link.clone();
        span
    }

    /// Adds a span to the open table cell or the open block.
    fn put(&mut self, span: ParsedSpan, opens_block: bool)
        ensures
            final(self).deep_view() == put_span(
                old(self).deep_view(),
                span.deep_view(),
                opens_block,
            ),
    {
        if self.in_table {
            self.cell.push(span);
        } else {
            if opens_block {
                self.in_block = true;
            }
            self.spans.push(span);
        }
        assert(self.deep_view() =~= put_span(
            old(self).deep_view(),
            span.deep_view(),
            opens_block,
        ));
    }

    /// A paragraph, a heading or a list begins.
    fn open_flow(&mut self, tag: MarkdownTag, text: String)
        requires
            tag is Paragraph || tag is Heading || tag is List || tag is Item,
            footnote_within(old(self).deep_view()),
        ensures
            final(self).deep_view() == markdown_open(old(self).deep_view(), tag, text@),
            footnote_within(final(self).deep_view()),
    {
        let ghost before = self.deep_view();
        match tag {
            MarkdownTag::Paragraph => {
                self.in_block = true;
                self.heading = None;
                self.is_code_block = false;
                assert(self.deep_view() =~= markdown_open(before, tag, text@));
            },
            MarkdownTag::Heading(level) => {
                self.in_block = true;
                self.heading = Some(heading_level_to_i64(level));
                self.is_code_block = false;
                assert(self.deep_view() =~= markdown_open(before, tag, text@));
            },
            MarkdownTag::List(ordered) => {
                self.lists.push(
                    if ordered {
                        ListStyle::Decimal
                    } else {
                        ListStyle::Disc
                    },
                );
                assert(self.deep_view() =~= markdown_open(before, tag, text@));
            },
            MarkdownTag::Item => {
                // Flush what the parent item accumulated before a child item
                // of a tight list starts.
                self.close_item();
                self.in_block = true;
                if self.lists.len() == 0 {
                    self.list_style = None;
                    self.list_indent = 0;
                } else {
                    self.list_style = Some(self.lists[self.lists.len() - 1]);
                    self.list_indent = ((self.lists.len() - 1) as u64 % 0x1_0000_0000u64) as u32;
                }
                assert(self.deep_view() =~= markdown_open(before, tag, text@));
            },
            _ => {},
        }
    }

    /// A code block, a blockquote or a footnote definition begins.
    fn open_container(&mut self, tag: MarkdownTag, text: String)
        requires
            tag is CodeBlock || tag is BlockQuote || tag is FootnoteDefinition,
            footnote_within(old(self).deep_view()),
        ensures
            final(self).deep_view() == markdown_open(old(self).deep_view(), tag, text@),
            footnote_within(final(self).deep_view()),
    {
        let ghost before = self.deep_view();
        match tag {
            MarkdownTag::CodeBlock => {
                self.in_block = true;
                self.is_code_block = true;
                self.code_language = if text.as_str().is_empty() {
                    None
                } else {
                    Some(text)
                };
                assert(self.deep_view() =~= markdown_open(before, tag, text@));
            },
            MarkdownTag::BlockQuote => {
                if self.blockquote_depth < u32::MAX {
                    self.blockquote_depth = self.blockquote_depth + 1;
                }
                assert(self.deep_view() =~= markdown_open(before, tag, text@));
            },
            MarkdownTag::FootnoteDefinition => {
                if self.spans.len() > 0 {
                    self.close_with_heading();
                }
                self.footnote = Some((text, self.elements.len()));
                assert(self.deep_view() =~= markdown_open(before, tag, text@));
            },
            _ => {},
        }
    }

    /// A table or a part of one begins.
    fn open_table(&mut self, tag: MarkdownTag, text: String)
        requires
            tag is Table || tag is TableHead || tag is TableRow || tag is TableCell,
            footnote_within(old(self).deep_view()),
        ensures
            final(self).deep_view() == markdown_open(old(self).deep_view(), tag, text@),
            footnote_within(final(self).deep_view()),
    {
        let ghost before = self.deep_view();
        match tag {
            MarkdownTag::Table => {
                self.in_table = true;
                self.in_table_head = false;
                self.rows = Vec::new();
                self.row = Vec::new();
                self.cell = Vec::new();
                self.header_rows = 0;
                assert(self.deep_view() =~= markdown_open(before, tag, text@));
            },
            MarkdownTag::TableHead => {
                self.in_table_head = true;
                self.row = Vec::new();
                assert(self.deep_view() =~= markdown_open(before, tag, text@));
            },
            MarkdownTag::TableRow => {
                self.row = Vec::new();
                assert(self.deep_view() =~= markdown_open(before, tag, text@));
            },
            MarkdownTag::TableCell => {
                self.cell = Vec::new();
                assert(self.deep_view() =~= markdown_open(before, tag, text@));
            },
            _ => {},
        }
    }

    /// A formatted span, a link or an image begins.
    fn open_inline(&mut self, tag: MarkdownTag, text: String)
        requires
            tag is Emphasis || tag is Strong || tag is Strikethrough || tag is Link || tag is Image,
            footnote_within(old(self).deep_view()),
        ensures
            final(self).deep_view() == markdown_open(old(self).deep_view(), tag, text@),
            footnote_within(final(self).deep_view()),
    {
        let ghost before = self.deep_view();
        match tag {
            MarkdownTag::Emphasis => {
                self.italic = true;
                assert(self.deep_view() =~= markdown_open(before, tag, text@));
            },
            MarkdownTag::Strong => {
                self.bold = true;
                assert(self.deep_view() =~= markdown_open(before, tag, text@));
            },
            MarkdownTag::Strikethrough => {
                self.strikeout = true;
                assert(self.deep_view() =~= markdown_open(before, tag, text@));
            },
            MarkdownTag::Link => {
                self.link = Some(text);
                assert(self.deep_view() =~= markdown_open(before, tag, text@));
            },
            MarkdownTag::Image => {
                self.image = Some(
                    ParsedImage { src: text, alt: String::new(), width: 0, height: 0 },
                );
                assert(self.image.deep_view()->0 =~= markdown_open(
                    before,
                    tag,
                    text@,
                ).image->0);
                assert(self.deep_view() =~= markdown_open(before, tag, text@));
            },
            _ => {},
        }
    }

    /// A construct begins.
    fn open(&mut self, tag: MarkdownTag, text: String)
        requires
            footnote_within(old(self).deep_view()),
        ensures
            final(self).deep_view() == markdown_open(old(self).deep_view(), tag, text@),
            footnote_within(final(self).deep_view()),
    {
        match tag {
            MarkdownTag::Paragraph | MarkdownTag::Heading(_) | MarkdownTag::List(_) | MarkdownTag::Item => {
                self.open_flow(tag, text);
            },
            MarkdownTag::CodeBlock | MarkdownTag::BlockQuote | MarkdownTag::FootnoteDefinition => {
                self.open_container(tag, text);
            },
            MarkdownTag::Table | MarkdownTag::TableHead | MarkdownTag::TableRow | MarkdownTag::TableCell => {
                self.open_table(tag, text);
            },
            MarkdownTag::Emphasis | MarkdownTag::Strong | MarkdownTag::Strikethrough | MarkdownTag::Link | MarkdownTag::Image => {
                self.open_inline(tag, text);
            },
            MarkdownTag::Other => {},
        }
    }

    /// A paragraph, a heading or a list ends.
    fn close_flow(&mut self, tag: MarkdownTag)
        requires
            tag is Paragraph || tag is Heading || tag is List || tag is Item,
            footnote_within(old(self).deep_view()),
        ensures
            final(self).deep_view() == markdown_close(old(self).deep_view(), tag),
            footnote_within(final(self).deep_view()),
    {
        let ghost before = self.deep_view();
        match tag {
            MarkdownTag::Paragraph => {
                if self.spans.len() > 0 || self.in_block {
                    self.close_with_heading();
                }
                self.in_block = false;
                self.list_style = None;
                assert(self.deep_view() =~= markdown_close(before, tag));
            },
            MarkdownTag::Heading(_) => {
                let mut block = ParsedBlock::paragraph(take_vec(&mut self.spans));
                block.heading_level = self.heading.take();
                block.blockquote_depth = self.blockquote_depth;
                self.elements.push(ParsedElement::Block(block));
                self.in_block = false;
                assert(self.deep_view() =~= markdown_close(before, tag));
            },
            MarkdownTag::List(_) => {
                let _ = self.lists.pop();
                assert(self.deep_view() =~= markdown_close(before, tag));
            },
            MarkdownTag::Item => {
                // The paragraph of a loose item is closed already; a tight
                // item has none.
                self.close_item();
                self.in_block = false;
                self.list_style = None;
                assert(self.deep_view() =~= markdown_close(before, tag));
            },
            _ => {},
        }
    }

    /// A code block, a blockquote or a footnote definition ends.
    fn close_container(&mut self, tag: MarkdownTag)
        requires
            tag is CodeBlock || tag is BlockQuote || tag is FootnoteDefinition,
            footnote_within(old(self).deep_view()),
        ensures
            final(self).deep_view() == markdown_close(old(self).deep_view(), tag),
            footnote_within(final(self).deep_view()),
    {
        let ghost before = self.deep_view();
        match tag {
            MarkdownTag::CodeBlock => {
                let mut spans = take_vec(&mut self.spans);
                strip_final_newline(&mut spans);
                let mut block = ParsedBlock::paragraph(spans);
                block.is_code_block = true;
                block.code_language = self.code_language.take();
                block.blockquote_depth = self.blockquote_depth;
                self.elements.push(ParsedElement::Block(block));
                self.in_block = false;
                self.is_code_block = false;
                assert(self.deep_view() =~= markdown_close(before, tag));
            },
            MarkdownTag::BlockQuote => {
                if self.blockquote_depth > 0 {
                    self.blockquote_depth = self.blockquote_depth - 1;
                }
                assert(self.deep_view() =~= markdown_close(before, tag));
            },
            MarkdownTag::FootnoteDefinition => {
                if self.spans.len() > 0 {
                    self.close_with_heading();
                }
                if let Some((label, start)) = self.footnote.take() {
                    lift_into_footnote(&mut self.elements, label, start);
                }
                assert(self.deep_view() =~= markdown_close(before, tag));
            },
            _ => {},
        }
    }

    /// A table or a part of one ends.
    fn close_table(&mut self, tag: MarkdownTag)
        requires
            tag is Table || tag is TableHead || tag is TableRow || tag is TableCell,
            footnote_within(old(self).deep_view()),
        ensures
            final(self).deep_view() == markdown_close(old(self).deep_view(), tag),
            footnote_within(final(self).deep_view()),
    {
        let ghost before = self.deep_view();
        match tag {
            MarkdownTag::Table => {
                let rows = take_vec(&mut self.rows);
                self.elements.push(
                    ParsedElement::Table(
                        ParsedTable {
                            header_rows: self.header_rows,
                            rows,
                            blockquote_depth: self.blockquote_depth,
                        },
                    ),
                );
                self.in_table = false;
                assert(self.deep_view() =~= markdown_close(before, tag));
            },
            MarkdownTag::TableHead => {
                let row = take_vec(&mut self.row);
                self.rows.push(row);
                if self.header_rows < usize::MAX {
                    self.header_rows = self.header_rows + 1;
                }
                self.in_table_head = false;
                assert(self.deep_view() =~= markdown_close(before, tag));
            },
            MarkdownTag::TableRow => {
                // The header row is closed with the table head.
                if !self.in_table_head {
                    let row = take_vec(&mut self.row);
                    self.rows.push(row);
                }
                assert(self.deep_view() =~= markdown_close(before, tag));
            },
            MarkdownTag::TableCell => {
                let spans = take_vec(&mut self.cell);
                self.row.push(ParsedTableCell { spans });
                assert(self.deep_view() =~= markdown_close(before, tag));
            },
            _ => {},
        }
    }

    /// A formatted span, a link or an image ends.
    fn close_inline(&mut self, tag: MarkdownTag)
        requires
            tag is Emphasis || tag is Strong || tag is Strikethrough || tag is Link || tag is Image,
            footnote_within(old(self).deep_view()),
        ensures
            final(self).deep_view() == markdown_close(old(self).deep_view(), tag),
            footnote_within(final(self).deep_view()),
    {
        let ghost before = self.deep_view();
        match tag {
            MarkdownTag::Emphasis => {
                self.italic = false;
                assert(self.deep_view() =~= markdown_close(before, tag));
            },
            MarkdownTag::Strong => {
                self.bold = false;
                assert(self.deep_view() =~= markdown_close(before, tag));
            },
            MarkdownTag::Strikethrough => {
                self.strikeout = false;
                assert(self.deep_view() =~= markdown_close(before, tag));
            },
            MarkdownTag::Link => {
                self.link = None;
                assert(self.deep_view() =~= markdown_close(before, tag));
            },
            MarkdownTag::Image => {
                if let Some(image) = self.image.take() {
                    let mut span = self.span(String::new(), false);
                    span.image = Some(image);
                    assert(span.deep_view() =~= (SpanModel {
                        image: before.image,
                        ..styled_span(before, Seq::empty(), false)
                    }));
                    assert(self.deep_view() =~= (MarkdownState { image: None, ..before }));
                    self.put(span, true);
                }
                assert(self.deep_view() =~= markdown_close(before, tag));
            },
            _ => {},
        }
    }

    /// A construct ends.
    fn close(&mut self, tag: MarkdownTag)
        requires
            footnote_within(old(self).deep_view()),
        ensures
            final(self).deep_view() == markdown_close(old(self).deep_view(), tag),
            footnote_within(final(self).deep_view()),
    {
        match tag {
            MarkdownTag::Paragraph | MarkdownTag::Heading(_) | MarkdownTag::List(_) | MarkdownTag::Item => {
                self.close_flow(tag);
            },
            MarkdownTag::CodeBlock | MarkdownTag::BlockQuote | MarkdownTag::FootnoteDefinition => {
                self.close_container(tag);
            },
            MarkdownTag::Table | MarkdownTag::TableHead | MarkdownTag::TableRow | MarkdownTag::TableCell => {
                self.close_table(tag);
            },
            MarkdownTag::Emphasis | MarkdownTag::Strong | MarkdownTag::Strikethrough | MarkdownTag::Link | MarkdownTag::Image => {
                self.close_inline(tag);
            },
            MarkdownTag::Other => {},
        }
    }

    /// The next event.
    fn step(&mut self, event: &MarkdownEvent)
        requires
            footnote_within(old(self).deep_view()),
        ensures
            final(self).deep_view() == markdown_step(old(self).deep_view(), event.deep_view()),
            footnote_within(final(self).deep_view()),
    {
        let ghost before = self.deep_view();
        match event {
            MarkdownEvent::Start(tag, text) => {
                self.open(*tag, text.clone());
            },
            MarkdownEvent::End(tag) => {
                self.close(*tag);
            },
            MarkdownEvent::Text(text) => {
                // Inside an image this is its description, which must not
                // become prose.
                if let Some(mut image) = self.image.take() {
                    image.alt.push_str(text.as_str());
                    self.image = Some(image);
                    assert(self.deep_view() =~= markdown_step(before, event.deep_view()));
                } else {
                    let span = self.span(text.clone(), self.is_code_block);
                    assert(self.deep_view() =~= before);
                    self.put(span, true);
                }
            },
            MarkdownEvent::Code(text) => {
                let span = self.span(text.clone(), true);
                self.put(span, true);
            },
            MarkdownEvent::FootnoteReference(label) => {
                let mut span = self.span(String::new(), false);
                span.footnote_ref = Some(label.clone());
                assert(span.deep_view() =~= (SpanModel {
                    footnote_ref: Some(label@),
                    ..styled_span(before, Seq::empty(), false)
                }));
                self.put(span, true);
            },
            MarkdownEvent::SoftBreak => {
                let mut text = String::new();
                text.push(' ');
                assert(text@ =~= seq![' ']);
                let span = self.span(text, false);
                self.put(span, false);
            },
            MarkdownEvent::HardBreak => {
                if self.spans.len() > 0 || self.in_block {
                    let mut block = self.take_block();
                    block.heading_level = self.heading.take();
                    block.is_code_block = self.is_code_block;
                    block.code_language = self.code_language.clone();
                    self.elements.push(ParsedElement::Block(block));
                    assert(self.deep_view() =~= markdown_step(before, event.deep_view()));
                }
            },
            MarkdownEvent::Other => {},
        }
    }

    /// What is left open when a document ends becomes its last block.
    fn finish(self) -> (elements: Vec<ParsedElement>)
        ensures
            elements.deep_view() == markdown_rest(self.deep_view()),
    {
        let mut reader = self;
        if reader.spans.len() > 0 {
            let mut block = reader.take_block();
            block.heading_level = reader.heading;
            block.is_code_block = reader.is_code_block;
            block.code_language = reader.code_language.take();
            reader.elements.push(ParsedElement::Block(block));
            assert(reader.elements.deep_view() =~= markdown_rest(self.deep_view()));
        }
        reader.elements
    }
}

/// The elements of a document with these events, the footnote definitions of
/// `dangling` labels left out.
pub fn read_markdown(events: &Vec<MarkdownEvent>, dangling: &Vec<String>) -> (elements: Vec<
    ParsedElement,
>)
    ensures
        elements.deep_view() == markdown_elements(events.deep_view(), dangling.deep_view()),
        elements.len() > 0,
{
    let ghost all = events.deep_view();
    let mut reader = MarkdownReader::new();
    for i in 0..events.len()
        invariant
            all == events.deep_view(),
            reader.deep_view() == markdown_after(all.take(i as int)),
            footnote_within(reader.deep_view()),
    {
        proof {
            assert(all.take(i + 1).drop_last() =~= all.take(i as int));
            assert(all.take(i + 1).last() == events[i as int].deep_view());
        }
        reader.step(&events[i]);
    }
    assert(all.take(all.len() as int) =~= all);
    let read = reader.finish();
    let ghost found = read.deep_view();
    let mut elements: Vec<ParsedElement> = Vec::new();
    for i in 0..read.len()
        invariant
            found == read.deep_view(),
            elements.deep_view() == without_definitions(
                found.take(i as int),
                dangling.deep_view(),
            ),
    {
        proof {
            assert(found.take(i + 1).drop_last() =~= found.take(i as int));
            assert(found.take(i + 1).last() == read[i as int].deep_view());
        }
        let keep: bool = match &read[i] {
            ParsedElement::FootnoteDefinition { label, .. } => !contains_text(
                dangling,
                label.as_str(),
            ),
            _ => true,
        };
        if keep {
            elements.push(read[i].clone());
        }
    }
    assert(found.take(found.len() as int) =~= found);
    if elements.is_empty() {
        elements.push(ParsedElement::Block(ParsedBlock::empty_paragraph()));
        assert(elements.deep_view() =~= or_empty_paragraph(Seq::empty()));
    }
    elements
}

// ─── The parser ──────────────────────────────────────────────────────

/// The end of a construct, as pulldown-cmark tells it.
#[verifier::external_type_specification]
#[verifier::external_body]
pub struct ExTagEnd(TagEnd);

/// The beginning of a construct, as pulldown-cmark tells it.
#[verifier::external_type_specification]
#[verifier::external_body]
pub struct ExTag<'a>(Tag<'a>);

/// The construct that a `pulldown_cmark::TagEnd` names, variant by variant;
/// nothing is claimed of it beyond what [`markdown_events`] names.
#[verifier::external_body]
fn tag_of(end: TagEnd) -> MarkdownTag {
    match end {
        TagEnd::Paragraph => MarkdownTag::Paragraph,
        TagEnd::Heading(level) => MarkdownTag::Heading(level as u8),
        TagEnd::BlockQuote(_) => MarkdownTag::BlockQuote,
        TagEnd::CodeBlock => MarkdownTag::CodeBlock,
        TagEnd::List(ordered) => MarkdownTag::List(ordered),
        TagEnd::Item => MarkdownTag::Item,
        TagEnd::FootnoteDefinition => MarkdownTag::FootnoteDefinition,
        TagEnd::Table => MarkdownTag::Table,
        TagEnd::TableHead => MarkdownTag::TableHead,
        TagEnd::TableRow => MarkdownTag::TableRow,
        TagEnd::TableCell => MarkdownTag::TableCell,
        inline => inline_tag_of(inline),
    }
}

/// The inline construct that a `pulldown_cmark::TagEnd` names, variant by
/// variant; nothing is claimed of it beyond what [`markdown_events`] names.
#[verifier::external_body]
fn inline_tag_of(end: TagEnd) -> MarkdownTag {
    match end {
        TagEnd::Emphasis => MarkdownTag::Emphasis,
        TagEnd::Strong => MarkdownTag::Strong,
        TagEnd::Strikethrough => MarkdownTag::Strikethrough,
        TagEnd::Link => MarkdownTag::Link,
        TagEnd::Image => MarkdownTag::Image,
        _ => MarkdownTag::Other,
    }
}

/// The text that a `pulldown_cmark::Tag` carries, field by field; nothing is
/// claimed of it beyond what [`markdown_events`] names.
#[verifier::external_body]
fn text_of(tag: Tag<'_>) -> String {
    match tag {
        Tag::Link { dest_url, .. } => dest_url.to_string(),
        Tag::Image { dest_url, .. } => dest_url.to_string(),
        Tag::FootnoteDefinition(label) => label.to_string(),
        Tag::CodeBlock(CodeBlockKind::Fenced(language)) => language.to_string(),
        _ => String::new(),
    }
}

/// The events that `pulldown_cmark::Parser` gives for a text under options.
pub uninterp spec fn markdown_event_stream(source: Seq<char>, options: u32) -> Seq<
    MarkdownEventModel,
>;

/// Calls `pulldown_cmark::Parser::new_ext` with the options that the bits stand
/// for, and collects its events. The contract claims that the events are a
/// function of the text and the options, named by [`markdown_event_stream`].
#[verifier::external_body]
fn markdown_events(source: &str, options: u32) -> (events: Vec<MarkdownEvent>)
    ensures
        events.deep_view() == markdown_event_stream(source@, options),
{
    Parser::new_ext(source, Options::from_bits_truncate(options)).map(|event| match event {
        Event::Start(tag) => MarkdownEvent::Start(tag_of(tag.to_end()), text_of(tag)),
        Event::End(end) => MarkdownEvent::End(tag_of(end)),
        Event::Text(text) => MarkdownEvent::Text(text.to_string()),
        Event::Code(text) => MarkdownEvent::Code(text.to_string()),
        Event::FootnoteReference(label) => MarkdownEvent::FootnoteReference(label.to_string()),
        Event::SoftBreak => MarkdownEvent::SoftBreak,
        Event::HardBreak => MarkdownEvent::HardBreak,
        _ => MarkdownEvent::Other,
    }).collect()
}

/// The parser's bits for tables, footnotes, strikethrough and task lists. Old-style
/// footnotes stay off: with them a blank line before an indented continuation
/// ends a definition, which breaks definitions of more than one paragraph.
pub const MARKDOWN_OPTIONS: u32 = 0b11110;

/// Labels referenced as `[^label]` in `markdown` with no `[^label]: ..`
/// definition anywhere in the document.
///
/// The parser only reports a reference to a label that some definition defines;
/// an undefined reference decomposes into ordinary text. [`parse_markdown`]
/// therefore hands it an empty definition for every such label, and throws that
/// definition away again.
///
/// The scan for references is plain, and can over-match (inside a code span,
/// say). That only ever produces an unused definition: the parse of the
/// augmented text decides whether a span becomes a reference.
fn dangling_footnote_labels(markdown: &str, options: u32) -> (labels: Vec<String>)
    ensures
        labels.deep_view() == dangling_labels(
            markdown@,
            markdown_event_stream(markdown@, options),
        ),
{
    let events = markdown_events(markdown, options);
    dangling_labels_of(markdown, &events)
}

/// The text that is parsed in place of a Markdown document.
pub open spec fn markdown_source(markdown: Seq<char>) -> Seq<char> {
    with_definitions(
        markdown,
        dangling_labels(markdown, markdown_event_stream(markdown, MARKDOWN_OPTIONS)),
    )
}

/// Reads a Markdown document. A footnote reference without a definition
/// survives as a reference.
pub fn parse_markdown(markdown: &str) -> (elements: Vec<ParsedElement>)
    ensures
        elements.deep_view() == markdown_elements(
            markdown_event_stream(markdown_source(markdown@), MARKDOWN_OPTIONS),
            dangling_labels(markdown@, markdown_event_stream(markdown@, MARKDOWN_OPTIONS)),
        ),
        elements.len() > 0,
{
    let dangling = dangling_footnote_labels(markdown, MARKDOWN_OPTIONS);
    let source = augmented(markdown, &dangling);
    let events = markdown_events(source.as_str(), MARKDOWN_OPTIONS);
    read_markdown(&events, &dangling)
}

} // verus!
