//! What the Markdown reader makes of the constructs of a document, stated over the events
//! themselves: which of them a piece of text, a block, a table or a footnote comes from.
use vstd::prelude::*;

use crate::entities::ListStyle;
use crate::parser_tools::content_parser::{
    blocks_among, BlockModel, ElementModel, PictureModel, SpanModel, TableModel,
};
use crate::parser_tools::djot_laws::{has_no_style, is_prose};
use crate::parser_tools::markdown::{
    markdown_after, markdown_close, markdown_elements, markdown_open, markdown_rest, open_block,
    markdown_step, put_span, styled_span, without_definitions, MarkdownEventModel, MarkdownState,
    MarkdownTag,
};

verus! {

// ─── The events so far ───────────────────────────────────────────────

/// How many blockquotes have begun and not ended.
pub open spec fn open_quotes(events: Seq<MarkdownEventModel>) -> int
    decreases events.len(),
{
    if events.len() == 0 {
        0
    } else {
        let rest = open_quotes(events.drop_last());
        match events.last() {
            MarkdownEventModel::Start(MarkdownTag::BlockQuote, _) => rest + 1,
            MarkdownEventModel::End(MarkdownTag::BlockQuote) => if rest > 0 {
                rest - 1
            } else {
                0
            },
            _ => rest,
        }
    }
}

/// The lists that have begun and not ended, the innermost last; `true` for a numbered
/// one.
pub open spec fn open_lists(events: Seq<MarkdownEventModel>) -> Seq<bool>
    decreases events.len(),
{
    if events.len() == 0 {
        Seq::empty()
    } else {
        let rest = open_lists(events.drop_last());
        match events.last() {
            MarkdownEventModel::Start(MarkdownTag::List(ordered), _) => rest.push(ordered),
            MarkdownEventModel::End(MarkdownTag::List(_)) => if rest.len() > 0 {
                rest.drop_last()
            } else {
                rest
            },
            _ => rest,
        }
    }
}

/// The list item that the next paragraph is the first of, if there is one: whether its
/// list is numbered, and how many lists there are around that list.
pub open spec fn open_item(events: Seq<MarkdownEventModel>) -> Option<(bool, int)>
    decreases events.len(),
{
    if events.len() == 0 {
        None
    } else {
        let rest = events.drop_last();
        match events.last() {
            MarkdownEventModel::Start(MarkdownTag::Item, _) => {
                let lists = open_lists(rest);
                if lists.len() == 0 {
                    None
                } else {
                    Some((lists.last(), lists.len() - 1))
                }
            },
            MarkdownEventModel::End(MarkdownTag::Item) => None,
            MarkdownEventModel::End(MarkdownTag::Paragraph) => None,
            _ => open_item(rest),
        }
    }
}

proof fn quotes_are_counted(events: Seq<MarkdownEventModel>)
    ensures
        0 <= open_quotes(events) <= events.len(),
    decreases events.len(),
{
    if events.len() > 0 {
        quotes_are_counted(events.drop_last());
    }
}

proof fn lists_are_counted(events: Seq<MarkdownEventModel>)
    ensures
        open_lists(events).len() <= events.len(),
    decreases events.len(),
{
    if events.len() > 0 {
        lists_are_counted(events.drop_last());
    }
}

proof fn reader_knows_quotes(events: Seq<MarkdownEventModel>)
    requires
        events.len() <= u32::MAX,
    ensures
        markdown_after(events).blockquote_depth == open_quotes(events),
    decreases events.len(),
{
    if events.len() > 0 {
        reader_knows_quotes(events.drop_last());
        quotes_are_counted(events.drop_last());
    }
}

/// The style of a list.
spec fn style_of(ordered: bool) -> ListStyle {
    if ordered {
        ListStyle::Decimal
    } else {
        ListStyle::Disc
    }
}

proof fn reader_knows_lists(events: Seq<MarkdownEventModel>)
    ensures
        markdown_after(events).lists == open_lists(events).map_values(
            |ordered: bool| style_of(ordered),
        ),
    decreases events.len(),
{
    let f = |ordered: bool| style_of(ordered);
    if events.len() > 0 {
        let rest = events.drop_last();
        reader_knows_lists(rest);
        let s = markdown_after(rest);
        let next = markdown_step(s, events.last());
        match events.last() {
            MarkdownEventModel::Start(MarkdownTag::List(ordered), _) => {
                assert(open_lists(events).map_values(f) =~= s.lists.push(style_of(ordered)));
            },
            MarkdownEventModel::End(MarkdownTag::List(_)) => {
                assert(open_lists(events).map_values(f) =~= next.lists);
            },
            _ => {
                assert(open_lists(events) == open_lists(rest));
                assert(next.lists == s.lists);
            },
        }
    } else {
        assert(open_lists(events).map_values(f) =~= Seq::empty());
    }
}

proof fn reader_knows_items(events: Seq<MarkdownEventModel>)
    requires
        events.len() <= u32::MAX,
    ensures
        match open_item(events) {
            Some((ordered, depth)) => {
                &&& markdown_after(events).list_style == Some(style_of(ordered))
                &&& markdown_after(events).list_indent == depth
            },
            None => markdown_after(events).list_style is None,
        },
    decreases events.len(),
{
    if events.len() > 0 {
        let rest = events.drop_last();
        reader_knows_items(rest);
        reader_knows_lists(rest);
        lists_are_counted(rest);
        let s = markdown_after(rest);
        let next = markdown_step(s, events.last());
        match events.last() {
            MarkdownEventModel::Start(MarkdownTag::Item, _) => {},
            MarkdownEventModel::End(MarkdownTag::Item) => {},
            MarkdownEventModel::End(MarkdownTag::Paragraph) => {},
            _ => {
                assert(open_item(events) == open_item(rest));
                assert(next.list_style == s.list_style);
                assert(next.list_indent == s.list_indent);
            },
        }
    }
}

// ─── Running on ──────────────────────────────────────────────────────

/// The state after some more events.
spec fn run(s: MarkdownState, events: Seq<MarkdownEventModel>) -> MarkdownState
    decreases events.len(),
{
    if events.len() == 0 {
        s
    } else {
        markdown_step(run(s, events.drop_last()), events.last())
    }
}

proof fn runs_on(before: Seq<MarkdownEventModel>, events: Seq<MarkdownEventModel>)
    ensures
        markdown_after(before + events) == run(markdown_after(before), events),
    decreases events.len(),
{
    if events.len() == 0 {
        assert(before + events =~= before);
    } else {
        runs_on(before, events.drop_last());
        assert((before + events).drop_last() =~= before + events.drop_last());
    }
}

proof fn run_concat(
    s: MarkdownState,
    a: Seq<MarkdownEventModel>,
    b: Seq<MarkdownEventModel>,
)
    ensures
        run(s, a + b) == run(run(s, a), b),
    decreases b.len(),
{
    if b.len() == 0 {
        assert(a + b =~= a);
    } else {
        run_concat(s, a, b.drop_last());
        assert((a + b).drop_last() =~= a + b.drop_last());
    }
}

proof fn run_one(s: MarkdownState, event: MarkdownEventModel)
    ensures
        run(s, seq![event]) == markdown_step(s, event),
{
    assert(seq![event].drop_last() =~= Seq::empty());
    assert(run(s, Seq::empty()) == s);
}

/// One event, others, and one more.
proof fn run_around(
    s: MarkdownState,
    first: MarkdownEventModel,
    inner: Seq<MarkdownEventModel>,
    last: MarkdownEventModel,
)
    ensures
        run(s, seq![first] + inner + seq![last]) == markdown_step(
            run(markdown_step(s, first), inner),
            last,
        ),
{
    run_concat(s, seq![first] + inner, seq![last]);
    run_concat(s, seq![first], inner);
    run_one(s, first);
    run_one(run(s, seq![first] + inner), last);
}

proof fn nothing_to_leave_out(elements: Seq<ElementModel>)
    ensures
        without_definitions(elements, Seq::empty()) == elements,
    decreases elements.len(),
{
    if elements.len() > 0 {
        nothing_to_leave_out(elements.drop_last());
        assert(elements.drop_last().push(elements.last()) =~= elements);
    }
}

// ─── A line ──────────────────────────────────────────────────────────

/// Whether a construct has begun and not ended since.
#[verifier::opaque]
pub open spec fn is_on(events: Seq<MarkdownEventModel>, tag: MarkdownTag) -> bool
    decreases events.len(),
{
    events.len() > 0 && match events.last() {
        MarkdownEventModel::Start(t, _) => t == tag || is_on(events.drop_last(), tag),
        MarkdownEventModel::End(t) => t != tag && is_on(events.drop_last(), tag),
        _ => is_on(events.drop_last(), tag),
    }
}

/// The target of the link that has begun and not ended since.
#[verifier::opaque]
pub open spec fn link_on(events: Seq<MarkdownEventModel>) -> Option<Seq<char>>
    decreases events.len(),
{
    if events.len() == 0 {
        None
    } else {
        match events.last() {
            MarkdownEventModel::Start(MarkdownTag::Link, target) => Some(target),
            MarkdownEventModel::End(MarkdownTag::Link) => None,
            _ => link_on(events.drop_last()),
        }
    }
}

/// The image that has begun and not ended since: its source, and as its description the
/// text in it. Markdown gives it no size.
#[verifier::opaque]
pub open spec fn picture_on(events: Seq<MarkdownEventModel>) -> Option<PictureModel>
    decreases events.len(),
{
    if events.len() == 0 {
        None
    } else {
        let rest = picture_on(events.drop_last());
        match events.last() {
            MarkdownEventModel::Start(MarkdownTag::Image, src) => Some(
                PictureModel { src, alt: Seq::empty(), width: 0, height: 0 },
            ),
            MarkdownEventModel::End(MarkdownTag::Image) => None,
            MarkdownEventModel::Text(text) => match rest {
                Some(picture) => Some(PictureModel { alt: picture.alt + text, ..picture }),
                None => None,
            },
            _ => rest,
        }
    }
}

/// A piece of a line: text, an image or a footnote reference, in the formatting of the
/// constructs that are open behind some events.
pub open spec fn worn(
    before: Seq<MarkdownEventModel>,
    text: Seq<char>,
    code: bool,
    image: Option<PictureModel>,
    footnote_ref: Option<Seq<char>>,
) -> SpanModel {
    SpanModel {
        text,
        bold: is_on(before, MarkdownTag::Strong),
        italic: is_on(before, MarkdownTag::Emphasis),
        underline: false,
        strikeout: is_on(before, MarkdownTag::Strikethrough),
        code,
        superscript: false,
        subscript: false,
        link_href: link_on(before),
        image,
        footnote_ref,
    }
}

/// The pieces of a line: one for each text, piece of code, image and footnote reference,
/// and a space for each line break in the source. Text within an image is none.
#[verifier::opaque]
pub open spec fn pieces(events: Seq<MarkdownEventModel>) -> Seq<SpanModel>
    decreases events.len(),
{
    if events.len() == 0 {
        Seq::empty()
    } else {
        let before = events.drop_last();
        match events.last() {
            MarkdownEventModel::Text(text) => if picture_on(before) is None {
                pieces(before).push(worn(before, text, false, None, None))
            } else {
                pieces(before)
            },
            MarkdownEventModel::Code(text) => pieces(before).push(
                worn(before, text, true, None, None),
            ),
            MarkdownEventModel::SoftBreak => pieces(before).push(
                worn(before, seq![' '], false, None, None),
            ),
            MarkdownEventModel::FootnoteReference(label) => pieces(before).push(
                worn(before, Seq::empty(), false, None, Some(label)),
            ),
            MarkdownEventModel::End(MarkdownTag::Image) => match picture_on(before) {
                Some(picture) => pieces(before).push(
                    worn(before, Seq::empty(), false, Some(picture), None),
                ),
                None => pieces(before),
            },
            _ => pieces(before),
        }
    }
}

/// Whether a construct is part of a line.
pub open spec fn is_inline_tag(tag: MarkdownTag) -> bool {
    ||| tag is Strong
    ||| tag is Emphasis
    ||| tag is Strikethrough
    ||| tag is Link
    ||| tag is Image
    ||| tag is Other
}

/// Whether an event is part of a line, and does not end it.
pub open spec fn is_inline(event: MarkdownEventModel) -> bool {
    match event {
        MarkdownEventModel::Start(tag, _) => is_inline_tag(tag),
        MarkdownEventModel::End(tag) => is_inline_tag(tag),
        MarkdownEventModel::HardBreak => false,
        _ => true,
    }
}

/// Whether events are all part of one line.
pub open spec fn is_line(events: Seq<MarkdownEventModel>) -> bool {
    forall|i: int| 0 <= i < events.len() ==> is_inline(#[trigger] events[i])
}

/// Whether nothing that begins in a line is still open at its end.
pub open spec fn is_closed(events: Seq<MarkdownEventModel>) -> bool {
    &&& !is_on(events, MarkdownTag::Strong)
    &&& !is_on(events, MarkdownTag::Emphasis)
    &&& !is_on(events, MarkdownTag::Strikethrough)
    &&& link_on(events) is None
    &&& picture_on(events) is None
}

/// Whether no formatting, link or image is open, and no code block.
pub open spec fn undressed(s: MarkdownState) -> bool {
    &&& s.image is None
    &&& !s.bold
    &&& !s.italic
    &&& !s.strikeout
    &&& s.link is None
    &&& !s.is_code_block
}

/// Whether the reader stands between two blocks.
pub open spec fn between_blocks(s: MarkdownState) -> bool {
    &&& undressed(s)
    &&& s.spans.len() == 0
    &&& !s.in_table
    &&& s.code_language is None
}

/// The spans of the open cell or block, with more behind them.
spec fn with_pieces(s: MarkdownState, more: Seq<SpanModel>) -> MarkdownState {
    if s.in_table {
        MarkdownState { cell: s.cell + more, ..s }
    } else {
        MarkdownState { spans: s.spans + more, ..s }
    }
}

/// What the reader holds behind a line, read from a state without formatting.
spec fn dressed(s: MarkdownState, line: Seq<MarkdownEventModel>) -> MarkdownState {
    MarkdownState {
        bold: is_on(line, MarkdownTag::Strong),
        italic: is_on(line, MarkdownTag::Emphasis),
        strikeout: is_on(line, MarkdownTag::Strikethrough),
        link: link_on(line),
        image: picture_on(line),
        ..s
    }
}

/// Whether the reader stands behind a line that it read from a state. Whether a block is
/// open is left aside.
spec fn behind_line(
    now: MarkdownState,
    s: MarkdownState,
    line: Seq<MarkdownEventModel>,
) -> bool {
    &&& now == MarkdownState { in_block: now.in_block, ..with_pieces(dressed(s, line), pieces(line)) }
    &&& s.in_block ==> now.in_block
}

proof fn one_more_on(rest: Seq<MarkdownEventModel>, event: MarkdownEventModel, tag: MarkdownTag)
    ensures
        is_on(rest.push(event), tag) == match event {
            MarkdownEventModel::Start(t, _) => t == tag || is_on(rest, tag),
            MarkdownEventModel::End(t) => t != tag && is_on(rest, tag),
            _ => is_on(rest, tag),
        },
{
    reveal(is_on);
    assert(rest.push(event).drop_last() =~= rest);
}

proof fn one_more_link(rest: Seq<MarkdownEventModel>, event: MarkdownEventModel)
    ensures
        link_on(rest.push(event)) == match event {
            MarkdownEventModel::Start(MarkdownTag::Link, target) => Some(target),
            MarkdownEventModel::End(MarkdownTag::Link) => None,
            _ => link_on(rest),
        },
{
    reveal(link_on);
    assert(rest.push(event).drop_last() =~= rest);
}

proof fn one_more_picture(rest: Seq<MarkdownEventModel>, event: MarkdownEventModel)
    ensures
        picture_on(rest.push(event)) == match event {
            MarkdownEventModel::Start(MarkdownTag::Image, src) => Some(
                PictureModel { src, alt: Seq::empty(), width: 0, height: 0 },
            ),
            MarkdownEventModel::End(MarkdownTag::Image) => None,
            MarkdownEventModel::Text(text) => match picture_on(rest) {
                Some(picture) => Some(PictureModel { alt: picture.alt + text, ..picture }),
                None => None,
            },
            _ => picture_on(rest),
        },
{
    reveal(picture_on);
    assert(rest.push(event).drop_last() =~= rest);
}

proof fn one_more_piece(rest: Seq<MarkdownEventModel>, event: MarkdownEventModel)
    ensures
        pieces(rest.push(event)) == match event {
            MarkdownEventModel::Text(text) => if picture_on(rest) is None {
                pieces(rest).push(worn(rest, text, false, None, None))
            } else {
                pieces(rest)
            },
            MarkdownEventModel::Code(text) => pieces(rest).push(
                worn(rest, text, true, None, None),
            ),
            MarkdownEventModel::SoftBreak => pieces(rest).push(
                worn(rest, seq![' '], false, None, None),
            ),
            MarkdownEventModel::FootnoteReference(label) => pieces(rest).push(
                worn(rest, Seq::empty(), false, None, Some(label)),
            ),
            MarkdownEventModel::End(MarkdownTag::Image) => match picture_on(rest) {
                Some(picture) => pieces(rest).push(
                    worn(rest, Seq::empty(), false, Some(picture), None),
                ),
                None => pieces(rest),
            },
            _ => pieces(rest),
        },
{
    reveal(pieces);
    assert(rest.push(event).drop_last() =~= rest);
}

proof fn one_more_span(
    now: MarkdownState,
    s: MarkdownState,
    more: Seq<SpanModel>,
    span: SpanModel,
    opens: bool,
)
    requires
        now == (MarkdownState { in_block: now.in_block, ..with_pieces(s, more) }),
    ensures
        ({
            let next = put_span(now, span, opens);
            &&& next == MarkdownState {
                in_block: next.in_block,
                ..with_pieces(s, more.push(span))
            }
            &&& now.in_block ==> next.in_block
        }),
{
    assert(s.spans + more.push(span) =~= (s.spans + more).push(span));
    assert(s.cell + more.push(span) =~= (s.cell + more).push(span));
    let next = put_span(now, span, opens);
    assert(next =~= MarkdownState { in_block: next.in_block, ..with_pieces(s, more.push(span)) });
}

proof fn line_step_tag(
    now: MarkdownState,
    s: MarkdownState,
    rest: Seq<MarkdownEventModel>,
    event: MarkdownEventModel,
)
    requires
        behind_line(now, s, rest),
        is_inline(event),
        event is Start || event is End,
        !(event matches MarkdownEventModel::End(MarkdownTag::Image)),
    ensures
        behind_line(markdown_step(now, event), s, rest.push(event)),
{
    one_more_on(rest, event, MarkdownTag::Strong);
    one_more_on(rest, event, MarkdownTag::Emphasis);
    one_more_on(rest, event, MarkdownTag::Strikethrough);
    one_more_link(rest, event);
    one_more_picture(rest, event);
    one_more_piece(rest, event);
    let next = markdown_step(now, event);
    let line = rest.push(event);
    assert(pieces(line) == pieces(rest));
    assert(next =~= MarkdownState {
        in_block: next.in_block,
        ..with_pieces(dressed(s, line), pieces(line))
    });
}

proof fn line_step_text(
    now: MarkdownState,
    s: MarkdownState,
    rest: Seq<MarkdownEventModel>,
    event: MarkdownEventModel,
)
    requires
        behind_line(now, s, rest),
        is_inline(event),
        !s.is_code_block,
        !(event is Start || event is End) || event matches MarkdownEventModel::End(
            MarkdownTag::Image,
        ),
    ensures
        behind_line(markdown_step(now, event), s, rest.push(event)),
{
    one_more_on(rest, event, MarkdownTag::Strong);
    one_more_on(rest, event, MarkdownTag::Emphasis);
    one_more_on(rest, event, MarkdownTag::Strikethrough);
    one_more_link(rest, event);
    one_more_picture(rest, event);
    one_more_piece(rest, event);
    let next = markdown_step(now, event);
    let line = rest.push(event);
    let bare = dressed(s, rest);
    match event {
        MarkdownEventModel::Text(text) => {
            if picture_on(rest) is None {
                let span = worn(rest, text, false, None, None);
                assert(span =~= styled_span(now, text, false));
                one_more_span(now, bare, pieces(rest), span, true);
                assert(dressed(s, line) =~= bare);
            } else {
                assert(next =~= MarkdownState {
                    in_block: next.in_block,
                    ..with_pieces(dressed(s, line), pieces(line))
                });
            }
        },
        MarkdownEventModel::Code(text) => {
            let span = worn(rest, text, true, None, None);
            assert(span =~= styled_span(now, text, true));
            one_more_span(now, bare, pieces(rest), span, true);
            assert(dressed(s, line) =~= bare);
        },
        MarkdownEventModel::SoftBreak => {
            let span = worn(rest, seq![' '], false, None, None);
            assert(span =~= styled_span(now, seq![' '], false));
            one_more_span(now, bare, pieces(rest), span, false);
            assert(dressed(s, line) =~= bare);
        },
        MarkdownEventModel::FootnoteReference(label) => {
            let span = worn(rest, Seq::empty(), false, None, Some(label));
            assert(span =~= SpanModel {
                footnote_ref: Some(label),
                ..styled_span(now, Seq::empty(), false)
            });
            one_more_span(now, bare, pieces(rest), span, true);
            assert(dressed(s, line) =~= bare);
        },
        MarkdownEventModel::End(_) => {
            if let Some(picture) = picture_on(rest) {
                let span = worn(rest, Seq::empty(), false, Some(picture), None);
                assert(span =~= SpanModel {
                    image: Some(picture),
                    ..styled_span(now, Seq::empty(), false)
                });
                let without = MarkdownState { image: None, ..now };
                assert(without =~= MarkdownState {
                    in_block: now.in_block,
                    ..with_pieces(dressed(s, line), pieces(rest))
                });
                one_more_span(without, dressed(s, line), pieces(rest), span, true);
            } else {
                assert(next =~= MarkdownState {
                    in_block: next.in_block,
                    ..with_pieces(dressed(s, line), pieces(line))
                });
            }
        },
        _ => {
            assert(next =~= MarkdownState {
                in_block: next.in_block,
                ..with_pieces(dressed(s, line), pieces(line))
            });
        },
    }
}

proof fn line_runs(s: MarkdownState, line: Seq<MarkdownEventModel>)
    requires
        undressed(s),
        is_line(line),
    ensures
        behind_line(run(s, line), s, line),
    decreases line.len(),
{
    if line.len() == 0 {
        reveal(is_on);
        reveal(link_on);
        reveal(picture_on);
        reveal(pieces);
        assert(s.spans + pieces(line) =~= s.spans);
        assert(s.cell + pieces(line) =~= s.cell);
        assert(s =~= MarkdownState {
            in_block: s.in_block,
            ..with_pieces(dressed(s, line), pieces(line))
        });
    } else {
        let rest = line.drop_last();
        assert(is_line(rest)) by {
            assert forall|i: int| 0 <= i < rest.len() implies is_inline(#[trigger] rest[i]) by {
                assert(rest[i] == line[i]);
            }
        }
        line_runs(s, rest);
        let event = line.last();
        assert(is_inline(line[line.len() - 1]));
        assert(rest.push(event) =~= line);
        let now = run(s, rest);
        if (event is Start || event is End) && !(event matches MarkdownEventModel::End(
            MarkdownTag::Image,
        )) {
            line_step_tag(now, s, rest, event);
        } else {
            line_step_text(now, s, rest, event);
        }
    }
}

// ─── Blocks ──────────────────────────────────────────────────────────

/// Whether a block belongs to a list item, or to none. A numbered list counts from one,
/// another has discs.
pub open spec fn belongs_to(block: BlockModel, item: Option<(bool, int)>) -> bool {
    &&& block.marker is None
    &&& block.list_prefix.len() == 0
    &&& block.list_suffix.len() == 0
    &&& match item {
        Some((ordered, depth)) => {
            &&& ordered ==> block.list_style == Some(ListStyle::Decimal)
            &&& !ordered ==> block.list_style == Some(ListStyle::Disc)
            &&& block.list_indent == depth
        },
        None => block.list_style is None,
    }
}

/// The events of a construct around others.
pub open spec fn around(tag: MarkdownTag, inner: Seq<MarkdownEventModel>) -> Seq<
    MarkdownEventModel,
> {
    seq![MarkdownEventModel::Start(tag, Seq::empty())] + inner + seq![
        MarkdownEventModel::End(tag),
    ]
}

/// The reader begins between two blocks, with nothing read.
pub proof fn reading_begins_between_blocks()
    ensures
        between_blocks(markdown_after(Seq::empty())),
        markdown_after(Seq::empty()).elements.len() == 0,
{
}

/// Where a blockquote, a list or a list item begins or ends between two blocks, nothing is
/// added to what was read.
pub proof fn holders_add_nothing(before: Seq<MarkdownEventModel>, event: MarkdownEventModel)
    requires
        between_blocks(markdown_after(before)),
        match event {
            MarkdownEventModel::Start(tag, _) => tag is BlockQuote || tag is List || tag is Item
                || tag is Other,
            MarkdownEventModel::End(tag) => tag is BlockQuote || tag is List || tag is Item
                || tag is Other,
            _ => false,
        },
    ensures
        between_blocks(markdown_after(before.push(event))),
        markdown_after(before.push(event)).elements == markdown_after(before).elements,
{
    assert(before.push(event).drop_last() =~= before);
}

/// A paragraph is one block behind what was read before: its pieces are those of its
/// line, in order; it stands in the blockquotes that are open, and belongs to the list
/// item that it is the first paragraph of.
pub proof fn paragraph_is_its_line(
    before: Seq<MarkdownEventModel>,
    line: Seq<MarkdownEventModel>,
)
    requires
        before.len() <= u32::MAX,
        between_blocks(markdown_after(before)),
        is_line(line),
    ensures
        ({
            let done = markdown_after(before).elements;
            let events = before + around(MarkdownTag::Paragraph, line);
            let all = markdown_elements(events, Seq::empty());
            &&& all.len() == done.len() + 1
            &&& all.take(done.len() as int) == done
            &&& all.last() matches ElementModel::Block(block) && {
                &&& block.spans == pieces(line)
                &&& block.heading_level is None
                &&& is_prose(block)
                &&& block.blockquote_depth == open_quotes(before)
                &&& belongs_to(block, open_item(before))
                &&& has_no_style(block)
            }
            &&& is_closed(line) ==> between_blocks(markdown_after(events))
        }),
{
    let first = MarkdownEventModel::Start(MarkdownTag::Paragraph, Seq::empty());
    let last = MarkdownEventModel::End(MarkdownTag::Paragraph);
    let s = markdown_after(before);
    reader_knows_quotes(before);
    reader_knows_items(before);
    runs_on(before, around(MarkdownTag::Paragraph, line));
    run_around(s, first, line, last);
    let begun = markdown_step(s, first);
    line_runs(begun, line);
    let full = run(begun, line);
    assert(full.spans =~= pieces(line));
    let next = markdown_step(full, last);
    nothing_to_leave_out(markdown_rest(next));
    let all = markdown_elements(before + around(MarkdownTag::Paragraph, line), Seq::empty());
    assert(all == next.elements);
    assert(all.take(s.elements.len() as int) =~= s.elements);
}

/// A heading is one block of its level behind what was read before. It belongs to no list
/// item.
pub proof fn heading_is_its_line(
    before: Seq<MarkdownEventModel>,
    level: u8,
    line: Seq<MarkdownEventModel>,
)
    requires
        before.len() <= u32::MAX,
        between_blocks(markdown_after(before)),
        is_line(line),
    ensures
        ({
            let done = markdown_after(before).elements;
            let events = before + around(MarkdownTag::Heading(level), line);
            let all = markdown_elements(events, Seq::empty());
            &&& all.len() == done.len() + 1
            &&& all.take(done.len() as int) == done
            &&& all.last() matches ElementModel::Block(block) && {
                &&& block.spans == pieces(line)
                &&& block.heading_level == Some(level as i64)
                &&& is_prose(block)
                &&& block.blockquote_depth == open_quotes(before)
                &&& belongs_to(block, None)
                &&& has_no_style(block)
            }
            &&& is_closed(line) ==> between_blocks(markdown_after(events))
        }),
{
    let first = MarkdownEventModel::Start(MarkdownTag::Heading(level), Seq::empty());
    let last = MarkdownEventModel::End(MarkdownTag::Heading(level));
    let s = markdown_after(before);
    reader_knows_quotes(before);
    runs_on(before, around(MarkdownTag::Heading(level), line));
    run_around(s, first, line, last);
    let begun = markdown_step(s, first);
    line_runs(begun, line);
    let full = run(begun, line);
    assert(full.spans =~= pieces(line));
    let next = markdown_step(full, last);
    nothing_to_leave_out(markdown_rest(next));
    let all = markdown_elements(before + around(MarkdownTag::Heading(level), line), Seq::empty());
    assert(all == next.elements);
    assert(all.take(s.elements.len() as int) =~= s.elements);
}

/// A line right in a list item is a block of that item.
pub proof fn item_is_its_line(
    before: Seq<MarkdownEventModel>,
    line: Seq<MarkdownEventModel>,
)
    requires
        before.len() < u32::MAX,
        between_blocks(markdown_after(before)),
        is_line(line),
        pieces(line).len() > 0,
    ensures
        ({
            let done = markdown_after(before).elements;
            let begun = before.push(MarkdownEventModel::Start(MarkdownTag::Item, Seq::empty()));
            let events = before + around(MarkdownTag::Item, line);
            let all = markdown_elements(events, Seq::empty());
            &&& all.len() == done.len() + 1
            &&& all.take(done.len() as int) == done
            &&& all.last() matches ElementModel::Block(block) && {
                &&& block.spans == pieces(line)
                &&& block.heading_level is None
                &&& is_prose(block)
                &&& block.blockquote_depth == open_quotes(before)
                &&& belongs_to(block, open_item(begun))
                &&& has_no_style(block)
            }
            &&& is_closed(line) ==> between_blocks(markdown_after(events))
        }),
{
    let first = MarkdownEventModel::Start(MarkdownTag::Item, Seq::empty());
    let last = MarkdownEventModel::End(MarkdownTag::Item);
    let begun = before.push(first);
    let s = markdown_after(before);
    reader_knows_quotes(before);
    assert(begun.drop_last() =~= before);
    reader_knows_items(begun);
    runs_on(before, around(MarkdownTag::Item, line));
    run_around(s, first, line, last);
    let entered = markdown_step(s, first);
    assert(entered == markdown_after(begun));
    line_runs(entered, line);
    let full = run(entered, line);
    assert(full.spans =~= pieces(line));
    let next = markdown_step(full, last);
    nothing_to_leave_out(markdown_rest(next));
    let all = markdown_elements(before + around(MarkdownTag::Item, line), Seq::empty());
    assert(all == next.elements);
    assert(all.take(s.elements.len() as int) =~= s.elements);
}

/// A list item that begins where a line of another is open ends that line: it is a block
/// of the item it stands in, and the reader stands between two blocks.
pub proof fn inner_item_ends_the_line(
    before: Seq<MarkdownEventModel>,
    line: Seq<MarkdownEventModel>,
    ordered: bool,
)
    requires
        before.len() < u32::MAX,
        between_blocks(markdown_after(before)),
        is_line(line),
        is_closed(line),
        pieces(line).len() > 0,
    ensures
        ({
            let done = markdown_after(before).elements;
            let begun = before.push(MarkdownEventModel::Start(MarkdownTag::Item, Seq::empty()));
            let events = before + (seq![
                MarkdownEventModel::Start(MarkdownTag::Item, Seq::empty()),
            ] + line + seq![
                MarkdownEventModel::Start(MarkdownTag::List(ordered), Seq::empty()),
            ] + seq![MarkdownEventModel::Start(MarkdownTag::Item, Seq::empty())]);
            let all = markdown_after(events).elements;
            &&& between_blocks(markdown_after(events))
            &&& all.len() == done.len() + 1
            &&& all.take(done.len() as int) == done
            &&& all.last() matches ElementModel::Block(block) && {
                &&& block.spans == pieces(line)
                &&& block.blockquote_depth == open_quotes(before)
                &&& belongs_to(block, open_item(begun))
            }
        }),
{
    let first = MarkdownEventModel::Start(MarkdownTag::Item, Seq::empty());
    let list = MarkdownEventModel::Start(MarkdownTag::List(ordered), Seq::empty());
    let begun = before.push(first);
    let s = markdown_after(before);
    reader_knows_quotes(before);
    assert(begun.drop_last() =~= before);
    reader_knows_items(begun);
    let inner = seq![first] + line + seq![list];
    runs_on(before, inner + seq![first]);
    run_concat(s, inner, seq![first]);
    run_around(s, first, line, list);
    run_one(run(s, inner), first);
    let entered = markdown_step(s, first);
    assert(entered == markdown_after(begun));
    line_runs(entered, line);
    let full = run(entered, line);
    assert(full.spans =~= pieces(line));
    let all = markdown_after(before + (inner + seq![first])).elements;
    assert(all.take(s.elements.len() as int) =~= s.elements);
}

/// A line that is still open where a document ends is its last block.
pub proof fn open_line_is_the_last_block(
    before: Seq<MarkdownEventModel>,
    line: Seq<MarkdownEventModel>,
)
    requires
        before.len() <= u32::MAX,
        between_blocks(markdown_after(before)),
        is_line(line),
        pieces(line).len() > 0,
    ensures
        ({
            let done = markdown_after(before).elements;
            let all = markdown_elements(before + line, Seq::empty());
            &&& all.len() == done.len() + 1
            &&& all.take(done.len() as int) == done
            &&& all.last() matches ElementModel::Block(block) && {
                &&& block.spans == pieces(line)
                &&& block.blockquote_depth == open_quotes(before)
                &&& belongs_to(block, open_item(before))
            }
        }),
{
    let s = markdown_after(before);
    reader_knows_quotes(before);
    reader_knows_items(before);
    runs_on(before, line);
    line_runs(s, line);
    let full = run(s, line);
    assert(full.spans =~= pieces(line));
    nothing_to_leave_out(markdown_rest(full));
    let all = markdown_elements(before + line, Seq::empty());
    assert(all.take(s.elements.len() as int) =~= s.elements);
}

/// A document that ends between two blocks is what was read of it, or an empty paragraph
/// where that is nothing.
pub proof fn document_is_what_was_read(events: Seq<MarkdownEventModel>)
    requires
        between_blocks(markdown_after(events)),
    ensures
        ({
            let done = markdown_after(events).elements;
            let all = markdown_elements(events, Seq::empty());
            &&& done.len() > 0 ==> all == done
            &&& done.len() == 0 ==> {
                &&& all.len() == 1
                &&& all[0] matches ElementModel::Block(block) && {
                    &&& block.spans.len() == 1
                    &&& block.spans[0].text.len() == 0
                    &&& block.heading_level is None
                    &&& !block.is_code_block
                    &&& block.blockquote_depth == 0
                    &&& block.list_style is None
                }
            }
        }),
{
    nothing_to_leave_out(markdown_rest(markdown_after(events)));
}

/// A hard break ends a block and begins another: the two lines are blocks one behind the
/// other.
pub proof fn hard_break_parts_a_paragraph(
    before: Seq<MarkdownEventModel>,
    a: Seq<MarkdownEventModel>,
    b: Seq<MarkdownEventModel>,
)
    requires
        before.len() <= u32::MAX,
        between_blocks(markdown_after(before)),
        is_line(a),
        is_line(b),
        is_closed(a),
    ensures
        ({
            let done = markdown_after(before).elements;
            let line = a + seq![MarkdownEventModel::HardBreak] + b;
            let all = markdown_elements(
                before + around(MarkdownTag::Paragraph, line),
                Seq::empty(),
            );
            &&& all.len() == done.len() + 2
            &&& all.take(done.len() as int) == done
            &&& all[done.len() as int] matches ElementModel::Block(block) && {
                &&& block.spans == pieces(a)
                &&& block.heading_level is None
                &&& is_prose(block)
                &&& block.blockquote_depth == open_quotes(before)
                &&& belongs_to(block, open_item(before))
            }
            &&& all.last() matches ElementModel::Block(block) && {
                &&& block.spans == pieces(b)
                &&& block.heading_level is None
                &&& is_prose(block)
                &&& block.blockquote_depth == open_quotes(before)
                &&& belongs_to(block, open_item(before))
            }
        }),
{
    let first = MarkdownEventModel::Start(MarkdownTag::Paragraph, Seq::empty());
    let last = MarkdownEventModel::End(MarkdownTag::Paragraph);
    let brk = MarkdownEventModel::HardBreak;
    let line = a + seq![brk] + b;
    let s = markdown_after(before);
    reader_knows_quotes(before);
    reader_knows_items(before);
    runs_on(before, around(MarkdownTag::Paragraph, line));
    run_around(s, first, line, last);
    let begun = markdown_step(s, first);
    run_concat(begun, a + seq![brk], b);
    run_concat(begun, a, seq![brk]);
    line_runs(begun, a);
    let one = run(begun, a);
    assert(one.spans =~= pieces(a));
    run_one(one, brk);
    let broken = markdown_step(one, brk);
    line_runs(broken, b);
    let full = run(broken, b);
    assert(full.spans =~= pieces(b));
    let next = markdown_step(full, last);
    nothing_to_leave_out(markdown_rest(next));
    let all = markdown_elements(before + around(MarkdownTag::Paragraph, line), Seq::empty());
    assert(all == next.elements);
    assert(all.take(s.elements.len() as int) =~= s.elements);
}

/// A hard break in a heading ends it: what stands before the break is the heading, as a block
/// of the list item that is open where there is one, and what stands behind is a paragraph
/// of no item.
pub proof fn hard_break_parts_a_heading(
    before: Seq<MarkdownEventModel>,
    level: u8,
    a: Seq<MarkdownEventModel>,
    b: Seq<MarkdownEventModel>,
)
    requires
        before.len() <= u32::MAX,
        between_blocks(markdown_after(before)),
        is_line(a),
        is_line(b),
        is_closed(a),
    ensures
        ({
            let done = markdown_after(before).elements;
            let line = a + seq![MarkdownEventModel::HardBreak] + b;
            let all = markdown_elements(
                before + around(MarkdownTag::Heading(level), line),
                Seq::empty(),
            );
            &&& all.len() == done.len() + 2
            &&& all.take(done.len() as int) == done
            &&& all[done.len() as int] matches ElementModel::Block(block) && {
                &&& block.spans == pieces(a)
                &&& block.heading_level == Some(level as i64)
                &&& is_prose(block)
                &&& block.blockquote_depth == open_quotes(before)
                &&& belongs_to(block, open_item(before))
            }
            &&& all.last() matches ElementModel::Block(block) && {
                &&& block.spans == pieces(b)
                &&& block.heading_level is None
                &&& is_prose(block)
                &&& block.blockquote_depth == open_quotes(before)
                &&& belongs_to(block, None)
            }
        }),
{
    let first = MarkdownEventModel::Start(MarkdownTag::Heading(level), Seq::empty());
    let last = MarkdownEventModel::End(MarkdownTag::Heading(level));
    let brk = MarkdownEventModel::HardBreak;
    let line = a + seq![brk] + b;
    let s = markdown_after(before);
    reader_knows_quotes(before);
    reader_knows_items(before);
    runs_on(before, around(MarkdownTag::Heading(level), line));
    run_around(s, first, line, last);
    let begun = markdown_step(s, first);
    run_concat(begun, a + seq![brk], b);
    run_concat(begun, a, seq![brk]);
    line_runs(begun, a);
    let one = run(begun, a);
    assert(one.spans =~= pieces(a));
    run_one(one, brk);
    let broken = markdown_step(one, brk);
    line_runs(broken, b);
    let full = run(broken, b);
    assert(full.spans =~= pieces(b));
    let next = markdown_step(full, last);
    nothing_to_leave_out(markdown_rest(next));
    let all = markdown_elements(before + around(MarkdownTag::Heading(level), line), Seq::empty());
    assert(all == next.elements);
    assert(all.take(s.elements.len() as int) =~= s.elements);
}

/// A code block is one block: its text without the newline at its end, as code, in the
/// language it names, if it names one.
pub proof fn code_block_is_its_text(
    before: Seq<MarkdownEventModel>,
    language: Seq<char>,
    text: Seq<char>,
)
    requires
        before.len() <= u32::MAX,
        between_blocks(markdown_after(before)),
    ensures
        ({
            let done = markdown_after(before).elements;
            let events = before + (seq![
                MarkdownEventModel::Start(MarkdownTag::CodeBlock, language),
            ] + seq![MarkdownEventModel::Text(text)] + seq![
                MarkdownEventModel::End(MarkdownTag::CodeBlock),
            ]);
            let all = markdown_elements(events, Seq::empty());
            &&& all.len() == done.len() + 1
            &&& all.take(done.len() as int) == done
            &&& all.last() matches ElementModel::Block(block) && {
                &&& block.spans.len() == 1
                &&& block.spans[0].text == if text.len() > 0 && text.last() == '\n' {
                    text.drop_last()
                } else {
                    text
                }
                &&& block.spans[0].code && !block.spans[0].bold && !block.spans[0].italic
                &&& block.is_code_block
                &&& block.code_language == if language.len() > 0 {
                    Some(language)
                } else {
                    None
                }
                &&& block.heading_level is None
                &&& block.blockquote_depth == open_quotes(before)
                &&& belongs_to(block, None)
                &&& has_no_style(block)
            }
            &&& between_blocks(markdown_after(events))
        }),
{
    let first = MarkdownEventModel::Start(MarkdownTag::CodeBlock, language);
    let middle = MarkdownEventModel::Text(text);
    let last = MarkdownEventModel::End(MarkdownTag::CodeBlock);
    let s = markdown_after(before);
    reader_knows_quotes(before);
    let events = seq![first] + seq![middle] + seq![last];
    runs_on(before, events);
    run_around(s, first, seq![middle], last);
    let begun = markdown_step(s, first);
    run_one(begun, middle);
    let full = markdown_step(begun, middle);
    let next = markdown_step(full, last);
    nothing_to_leave_out(markdown_rest(next));
    let all = markdown_elements(before + events, Seq::empty());
    assert(all == next.elements);
    assert(all.take(s.elements.len() as int) =~= s.elements);
}

// ─── Tables ──────────────────────────────────────────────────────────

/// The events of the cells of a row.
pub open spec fn cells_events(cells: Seq<Seq<MarkdownEventModel>>) -> Seq<MarkdownEventModel>
    decreases cells.len(),
{
    if cells.len() == 0 {
        Seq::empty()
    } else {
        cells_events(cells.drop_last()) + around(MarkdownTag::TableCell, cells.last())
    }
}

/// The events of the rows of a table behind its head.
pub open spec fn rows_events(rows: Seq<Seq<Seq<MarkdownEventModel>>>) -> Seq<MarkdownEventModel>
    decreases rows.len(),
{
    if rows.len() == 0 {
        Seq::empty()
    } else {
        rows_events(rows.drop_last()) + around(MarkdownTag::TableRow, cells_events(rows.last()))
    }
}

/// Whether cells are lines in which nothing is left open.
pub open spec fn are_cells(cells: Seq<Seq<MarkdownEventModel>>) -> bool {
    forall|i: int| 0 <= i < cells.len() ==> is_line(#[trigger] cells[i]) && is_closed(cells[i])
}

/// Whether the cells of rows are lines in which nothing is left open.
pub open spec fn are_rows(rows: Seq<Seq<Seq<MarkdownEventModel>>>) -> bool {
    forall|i: int| 0 <= i < rows.len() ==> are_cells(#[trigger] rows[i])
}

/// The pieces of the cells of a row.
pub open spec fn row_pieces(cells: Seq<Seq<MarkdownEventModel>>) -> Seq<Seq<SpanModel>> {
    cells.map_values(|line: Seq<MarkdownEventModel>| pieces(line))
}

proof fn cells_run(s: MarkdownState, cells: Seq<Seq<MarkdownEventModel>>)
    requires
        undressed(s),
        s.in_table,
        s.cell.len() == 0,
        are_cells(cells),
    ensures
        ({
            let next = run(s, cells_events(cells));
            next == MarkdownState {
                row: s.row + row_pieces(cells),
                in_block: next.in_block,
                ..s
            }
        }),
    decreases cells.len(),
{
    if cells.len() == 0 {
        assert(s.row + row_pieces(cells) =~= s.row);
        assert(s =~= MarkdownState {
            row: s.row + row_pieces(cells),
            in_block: s.in_block,
            ..s
        });
    } else {
        let rest = cells.drop_last();
        let line = cells.last();
        assert(are_cells(rest)) by {
            assert forall|i: int| 0 <= i < rest.len() implies is_line(#[trigger] rest[i])
                && is_closed(rest[i]) by {
                assert(rest[i] == cells[i]);
            }
        }
        assert(line == cells[cells.len() - 1]);
        cells_run(s, rest);
        let first = MarkdownEventModel::Start(MarkdownTag::TableCell, Seq::empty());
        let last = MarkdownEventModel::End(MarkdownTag::TableCell);
        let now = run(s, cells_events(rest));
        run_concat(s, cells_events(rest), around(MarkdownTag::TableCell, line));
        run_around(now, first, line, last);
        let begun = markdown_step(now, first);
        line_runs(begun, line);
        let full = run(begun, line);
        assert(full.cell =~= pieces(line));
        let next = markdown_step(full, last);
        assert(s.row + row_pieces(cells) =~= (s.row + row_pieces(rest)).push(pieces(line)));
        assert(next.cell =~= s.cell);
        assert(next =~= MarkdownState {
            row: s.row + row_pieces(cells),
            in_block: next.in_block,
            ..s
        });
    }
}

proof fn rows_run(s: MarkdownState, rows: Seq<Seq<Seq<MarkdownEventModel>>>)
    requires
        undressed(s),
        s.in_table,
        !s.in_table_head,
        s.cell.len() == 0,
        s.row.len() == 0,
        are_rows(rows),
    ensures
        ({
            let next = run(s, rows_events(rows));
            next == MarkdownState {
                rows: s.rows + rows.map_values(
                    |cells: Seq<Seq<MarkdownEventModel>>| row_pieces(cells),
                ),
                in_block: next.in_block,
                ..s
            }
        }),
    decreases rows.len(),
{
    let f = |cells: Seq<Seq<MarkdownEventModel>>| row_pieces(cells);
    if rows.len() == 0 {
        assert(s.rows + rows.map_values(f) =~= s.rows);
        assert(s =~= MarkdownState {
            rows: s.rows + rows.map_values(f),
            in_block: s.in_block,
            ..s
        });
    } else {
        let rest = rows.drop_last();
        let cells = rows.last();
        assert(are_rows(rest)) by {
            assert forall|i: int| 0 <= i < rest.len() implies are_cells(#[trigger] rest[i]) by {
                assert(rest[i] == rows[i]);
            }
        }
        assert(cells == rows[rows.len() - 1]);
        rows_run(s, rest);
        let first = MarkdownEventModel::Start(MarkdownTag::TableRow, Seq::empty());
        let last = MarkdownEventModel::End(MarkdownTag::TableRow);
        let now = run(s, rows_events(rest));
        run_concat(s, rows_events(rest), around(MarkdownTag::TableRow, cells_events(cells)));
        run_around(now, first, cells_events(cells), last);
        let begun = markdown_step(now, first);
        cells_run(begun, cells);
        let full = run(begun, cells_events(cells));
        assert(full.row =~= row_pieces(cells));
        let next = markdown_step(full, last);
        assert(s.rows + rows.map_values(f) =~= (s.rows + rest.map_values(f)).push(
            row_pieces(cells),
        ));
        assert(next.row =~= s.row);
        assert(next =~= MarkdownState {
            rows: s.rows + rows.map_values(f),
            in_block: next.in_block,
            ..s
        });
    }
}

/// A table is one element behind what was read before: the pieces of the cells of its
/// head, which is one row, and then of its other rows, in the blockquotes that are open.
pub proof fn table_is_its_cells(
    before: Seq<MarkdownEventModel>,
    head: Seq<Seq<MarkdownEventModel>>,
    rows: Seq<Seq<Seq<MarkdownEventModel>>>,
)
    requires
        before.len() <= u32::MAX,
        between_blocks(markdown_after(before)),
        are_cells(head),
        are_rows(rows),
    ensures
        ({
            let done = markdown_after(before).elements;
            let inner = around(MarkdownTag::TableHead, cells_events(head)) + rows_events(rows);
            let events = before + around(MarkdownTag::Table, inner);
            &&& markdown_elements(events, Seq::empty()) == done.push(
                ElementModel::Table(
                    TableModel {
                        header_rows: 1,
                        rows: seq![row_pieces(head)] + rows.map_values(
                            |cells: Seq<Seq<MarkdownEventModel>>| row_pieces(cells),
                        ),
                        blockquote_depth: open_quotes(before),
                    },
                ),
            )
            &&& between_blocks(markdown_after(events))
        }),
{
    let f = |cells: Seq<Seq<MarkdownEventModel>>| row_pieces(cells);
    let first = MarkdownEventModel::Start(MarkdownTag::Table, Seq::empty());
    let last = MarkdownEventModel::End(MarkdownTag::Table);
    let open = MarkdownEventModel::Start(MarkdownTag::TableHead, Seq::empty());
    let close = MarkdownEventModel::End(MarkdownTag::TableHead);
    let top = around(MarkdownTag::TableHead, cells_events(head));
    let inner = top + rows_events(rows);
    let s = markdown_after(before);
    reader_knows_quotes(before);
    runs_on(before, around(MarkdownTag::Table, inner));
    run_around(s, first, inner, last);
    let begun = markdown_step(s, first);
    run_concat(begun, top, rows_events(rows));
    run_around(begun, open, cells_events(head), close);
    let opened = markdown_step(begun, open);
    cells_run(opened, head);
    let full = run(opened, cells_events(head));
    assert(full.row =~= row_pieces(head));
    let headed = markdown_step(full, close);
    assert(headed.rows =~= seq![row_pieces(head)]);
    rows_run(headed, rows);
    let next = markdown_step(run(begun, inner), last);
    nothing_to_leave_out(markdown_rest(next));
    assert(markdown_elements(before + around(MarkdownTag::Table, inner), Seq::empty())
        == next.elements);
}

// ─── Footnotes ───────────────────────────────────────────────────────

/// Whether no footnote definition begins or ends among events.
pub open spec fn no_footnotes(events: Seq<MarkdownEventModel>) -> bool {
    forall|i: int|
        0 <= i < events.len() ==> {
            &&& !(#[trigger] events[i] matches MarkdownEventModel::Start(
                MarkdownTag::FootnoteDefinition,
                _,
            ))
            &&& !(events[i] matches MarkdownEventModel::End(MarkdownTag::FootnoteDefinition))
        }
}

proof fn one_element_at_most(s: MarkdownState, event: MarkdownEventModel)
    requires
        !(event matches MarkdownEventModel::Start(MarkdownTag::FootnoteDefinition, _)),
        !(event matches MarkdownEventModel::End(MarkdownTag::FootnoteDefinition)),
    ensures
        markdown_step(s, event).footnote == s.footnote,
        markdown_step(s, event).elements == s.elements || markdown_step(s, event).elements
            == s.elements.push(markdown_step(s, event).elements.last()),
{
    match event {
        MarkdownEventModel::Start(tag, text) => {
            if tag is Item {
            } else {
                assert(markdown_open(s, tag, text).elements == s.elements);
            }
        },
        MarkdownEventModel::End(tag) => {
            let next = markdown_close(s, tag);
            assert(next.elements == s.elements || next.elements == s.elements.push(
                next.elements.last(),
            ));
        },
        _ => {},
    }
}

proof fn elements_stay(s: MarkdownState, events: Seq<MarkdownEventModel>)
    requires
        no_footnotes(events),
    ensures
        run(s, events).footnote == s.footnote,
        s.elements.len() <= run(s, events).elements.len(),
        run(s, events).elements.take(s.elements.len() as int) == s.elements,
    decreases events.len(),
{
    if events.len() == 0 {
        assert(s.elements.take(s.elements.len() as int) =~= s.elements);
    } else {
        let rest = events.drop_last();
        assert(no_footnotes(rest)) by {
            assert forall|i: int| 0 <= i < rest.len() implies {
                &&& !(#[trigger] rest[i] matches MarkdownEventModel::Start(
                    MarkdownTag::FootnoteDefinition,
                    _,
                ))
                &&& !(rest[i] matches MarkdownEventModel::End(MarkdownTag::FootnoteDefinition))
            } by {
                assert(rest[i] == events[i]);
            }
        }
        elements_stay(s, rest);
        let now = run(s, rest);
        let event = events.last();
        assert(event == events[events.len() - 1]);
        one_element_at_most(now, event);
        assert(markdown_step(now, event).elements.take(s.elements.len() as int)
            =~= now.elements.take(s.elements.len() as int));
    }
}

proof fn blocks_are_among(blocks: Seq<BlockModel>)
    ensures
        blocks_among(blocks.map_values(|block: BlockModel| ElementModel::Block(block))) == blocks,
    decreases blocks.len(),
{
    let f = |block: BlockModel| ElementModel::Block(block);
    if blocks.len() > 0 {
        blocks_are_among(blocks.drop_last());
        assert(blocks.map_values(f).drop_last() =~= blocks.drop_last().map_values(f));
        assert(blocks.drop_last().push(blocks.last()) =~= blocks);
    } else {
        assert(blocks_among(blocks.map_values(f)) =~= blocks);
    }
}

/// A footnote definition is one element behind what was read before it: its label, and
/// the blocks that were read in it, which are then nowhere else.
pub proof fn footnote_is_its_blocks(
    before: Seq<MarkdownEventModel>,
    label: Seq<char>,
    body: Seq<MarkdownEventModel>,
    blocks: Seq<BlockModel>,
)
    requires
        between_blocks(markdown_after(before)),
        no_footnotes(body),
        ({
            let begun = before.push(
                MarkdownEventModel::Start(MarkdownTag::FootnoteDefinition, label),
            );
            &&& between_blocks(markdown_after(begun + body))
            &&& markdown_after(begun + body).elements == markdown_after(before).elements
                + blocks.map_values(|block: BlockModel| ElementModel::Block(block))
        }),
    ensures
        ({
            let begun = before.push(
                MarkdownEventModel::Start(MarkdownTag::FootnoteDefinition, label),
            );
            let events = (begun + body).push(
                MarkdownEventModel::End(MarkdownTag::FootnoteDefinition),
            );
            &&& markdown_elements(events, Seq::empty()) == markdown_after(before).elements.push(
                ElementModel::FootnoteDefinition { label, blocks },
            )
            &&& between_blocks(markdown_after(events))
        }),
{
    let first = MarkdownEventModel::Start(MarkdownTag::FootnoteDefinition, label);
    let last = MarkdownEventModel::End(MarkdownTag::FootnoteDefinition);
    let f = |block: BlockModel| ElementModel::Block(block);
    let begun = before.push(first);
    let done = markdown_after(before).elements;
    assert(begun.drop_last() =~= before);
    runs_on(begun, body);
    elements_stay(markdown_after(begun), body);
    let s = markdown_after(begun + body);
    assert(s.footnote == Some((label, done.len() as int)));
    let events = (begun + body).push(last);
    assert(events.drop_last() =~= begun + body);
    assert(s.elements.take(done.len() as int) =~= done);
    assert(s.elements.skip(done.len() as int) =~= blocks.map_values(f));
    blocks_are_among(blocks);
    let next = markdown_after(events);
    nothing_to_leave_out(markdown_rest(next));
    assert(markdown_elements(events, Seq::empty()) == next.elements);
}

/// A line that is open where a footnote begins is a block before it, of the level of the
/// heading that it began.
pub proof fn footnote_ends_the_line_before(
    before: Seq<MarkdownEventModel>,
    level: u8,
    line: Seq<MarkdownEventModel>,
    label: Seq<char>,
)
    requires
        before.len() <= u32::MAX,
        between_blocks(markdown_after(before)),
        is_line(line),
        pieces(line).len() > 0,
    ensures
        ({
            let done = markdown_after(before).elements;
            let events = before + (seq![
                MarkdownEventModel::Start(MarkdownTag::Heading(level), Seq::empty()),
            ] + line + seq![MarkdownEventModel::Start(MarkdownTag::FootnoteDefinition, label)]);
            let after = markdown_after(events);
            &&& after.spans.len() == 0
            &&& after.heading is None
            &&& after.elements.len() == done.len() + 1
            &&& after.elements.take(done.len() as int) == done
            &&& after.elements.last() matches ElementModel::Block(block) && {
                &&& block.spans == pieces(line)
                &&& block.heading_level == Some(level as i64)
                &&& is_prose(block)
                &&& block.blockquote_depth == open_quotes(before)
                &&& belongs_to(block, open_item(before))
            }
        }),
{
    let first = MarkdownEventModel::Start(MarkdownTag::Heading(level), Seq::empty());
    let last = MarkdownEventModel::Start(MarkdownTag::FootnoteDefinition, label);
    let s = markdown_after(before);
    reader_knows_quotes(before);
    reader_knows_items(before);
    runs_on(before, seq![first] + line + seq![last]);
    run_around(s, first, line, last);
    let begun = markdown_step(s, first);
    line_runs(begun, line);
    let full = run(begun, line);
    assert(full.spans =~= pieces(line));
    let next = markdown_step(full, last);
    assert(next.elements.take(s.elements.len() as int) =~= s.elements);
}

/// A line that is open where a footnote ends is a block of the footnote.
pub proof fn footnote_takes_the_line_in_it(
    before: Seq<MarkdownEventModel>,
    label: Seq<char>,
    line: Seq<MarkdownEventModel>,
)
    requires
        before.len() <= u32::MAX,
        between_blocks(markdown_after(before)),
        is_line(line),
        pieces(line).len() > 0,
    ensures
        ({
            let done = markdown_after(before).elements;
            let events = before + (seq![
                MarkdownEventModel::Start(MarkdownTag::FootnoteDefinition, label),
            ] + line + seq![MarkdownEventModel::End(MarkdownTag::FootnoteDefinition)]);
            let all = markdown_elements(events, Seq::empty());
            &&& all.len() == done.len() + 1
            &&& all.take(done.len() as int) == done
            &&& all.last() is FootnoteDefinition
            &&& all.last()->label == label
            &&& all.last()->blocks.len() == 1
            &&& all.last()->blocks[0].spans == pieces(line)
            &&& is_prose(all.last()->blocks[0])
            &&& all.last()->blocks[0].blockquote_depth == open_quotes(before)
            &&& belongs_to(all.last()->blocks[0], open_item(before))
        }),
{
    let first = MarkdownEventModel::Start(MarkdownTag::FootnoteDefinition, label);
    let last = MarkdownEventModel::End(MarkdownTag::FootnoteDefinition);
    let s = markdown_after(before);
    reader_knows_quotes(before);
    reader_knows_items(before);
    runs_on(before, seq![first] + line + seq![last]);
    run_around(s, first, line, last);
    let begun = markdown_step(s, first);
    line_runs(begun, line);
    let full = run(begun, line);
    assert(full.spans =~= pieces(line));
    let next = markdown_step(full, last);
    let block = BlockModel { heading_level: full.heading, ..open_block(full) };
    let flushed = s.elements.push(ElementModel::Block(block));
    assert(flushed.take(s.elements.len() as int) =~= s.elements);
    assert(flushed.skip(s.elements.len() as int) =~= seq![block].map_values(
        |block: BlockModel| ElementModel::Block(block),
    ));
    blocks_are_among(seq![block]);
    nothing_to_leave_out(markdown_rest(next));
    let all = markdown_elements(before + (seq![first] + line + seq![last]), Seq::empty());
    assert(all == next.elements);
    assert(all.take(s.elements.len() as int) =~= s.elements);
}

} // verus!
