//! What the Djot reader makes of the constructs of a document, stated over the events
//! themselves: which of them a piece of text, a block, a table or a footnote comes from.
use vstd::prelude::*;

use crate::entities::{ListStyle, MarkerType};
use crate::parser_tools::content_parser::{
    blocks_among, BlockModel, ElementModel, PictureModel, SpanModel, TableModel,
};
use crate::parser_tools::djot::{
    add_djot_span, atom_char, attr_value, attrs_style, djot_after, djot_elements, djot_open,
    djot_step, is_dropped, item_block, list_model, marked_span, no_style, pixels, read_text,
    set_mark, DjotAtom, DjotEventModel, DjotList, DjotNumbering, DjotState, DjotTag, MarksModel,
    OpenTable, StyleModel,
};
use crate::parser_tools::djot_options::DjotImportOptions;

verus! {

// ─── The events so far ───────────────────────────────────────────────

/// Whether no construct that is dropped begins among events.
pub open spec fn nothing_dropped(events: Seq<DjotEventModel>) -> bool {
    forall|i: int|
        0 <= i < events.len() ==> !(#[trigger] events[i] matches DjotEventModel::Start(tag, _, _)
            && is_dropped(tag))
}

/// How many blockquotes have begun and not ended.
pub open spec fn open_quotes(events: Seq<DjotEventModel>) -> int
    decreases events.len(),
{
    if events.len() == 0 {
        0
    } else {
        let rest = open_quotes(events.drop_last());
        match events.last() {
            DjotEventModel::Start(DjotTag::Blockquote, _, _) => rest + 1,
            DjotEventModel::End(DjotTag::Blockquote) => if rest > 0 {
                rest - 1
            } else {
                0
            },
            _ => rest,
        }
    }
}

/// The lists that have begun and not ended, the innermost last.
pub open spec fn open_lists(events: Seq<DjotEventModel>) -> Seq<DjotList>
    decreases events.len(),
{
    if events.len() == 0 {
        Seq::empty()
    } else {
        let rest = open_lists(events.drop_last());
        match events.last() {
            DjotEventModel::Start(DjotTag::List(list), _, _) => rest.push(list),
            DjotEventModel::End(DjotTag::List(_)) => if rest.len() > 0 {
                rest.drop_last()
            } else {
                rest
            },
            _ => rest,
        }
    }
}

/// A list item of which no paragraph was read yet.
#[verifier::ext_equal]
pub struct OpenItem {
    pub list: DjotList,
    /// How many lists there are around that list.
    pub depth: int,
    pub marker: Option<MarkerType>,
}

/// The list item that begins with the event behind others.
pub open spec fn begun_item(before: Seq<DjotEventModel>, marker: Option<MarkerType>) -> OpenItem {
    let lists = open_lists(before);
    if lists.len() == 0 {
        OpenItem { list: DjotList::Bullet('-'), depth: 0, marker }
    } else {
        OpenItem { list: lists.last(), depth: lists.len() - 1, marker }
    }
}

/// The list item that the next paragraph is the first of, if there is one.
pub open spec fn open_item(events: Seq<DjotEventModel>) -> Option<OpenItem>
    decreases events.len(),
{
    if events.len() == 0 {
        None
    } else {
        let rest = events.drop_last();
        match events.last() {
            DjotEventModel::Start(DjotTag::ListItem, _, _) => Some(begun_item(rest, None)),
            DjotEventModel::Start(DjotTag::TaskListItem(true), _, _) => Some(
                begun_item(rest, Some(MarkerType::Checked)),
            ),
            DjotEventModel::Start(DjotTag::TaskListItem(false), _, _) => Some(
                begun_item(rest, Some(MarkerType::Unchecked)),
            ),
            DjotEventModel::End(DjotTag::ListItem) => None,
            DjotEventModel::End(DjotTag::TaskListItem(_)) => None,
            DjotEventModel::End(DjotTag::List(_)) => None,
            DjotEventModel::End(DjotTag::Paragraph) => None,
            _ => open_item(rest),
        }
    }
}

/// Whether events are such that the ones above say all about quotes and lists.
pub open spec fn can_be_told(events: Seq<DjotEventModel>) -> bool {
    nothing_dropped(events) && events.len() <= u32::MAX
}

proof fn quotes_are_counted(events: Seq<DjotEventModel>)
    ensures
        0 <= open_quotes(events) <= events.len(),
    decreases events.len(),
{
    if events.len() > 0 {
        quotes_are_counted(events.drop_last());
    }
}

proof fn lists_are_counted(events: Seq<DjotEventModel>)
    ensures
        open_lists(events).len() <= events.len(),
    decreases events.len(),
{
    if events.len() > 0 {
        lists_are_counted(events.drop_last());
    }
}

proof fn earlier_can_be_told(events: Seq<DjotEventModel>)
    requires
        can_be_told(events),
        events.len() > 0,
    ensures
        can_be_told(events.drop_last()),
        !(events.last() matches DjotEventModel::Start(tag, _, _) && is_dropped(tag)),
{
    let rest = events.drop_last();
    assert forall|i: int| 0 <= i < rest.len() implies !(
    #[trigger] rest[i] matches DjotEventModel::Start(tag, _, _) && is_dropped(tag)) by {
        assert(rest[i] == events[i]);
    }
    assert(events.last() == events[events.len() - 1]);
}

proof fn reader_knows_quotes(events: Seq<DjotEventModel>, opts: DjotImportOptions)
    requires
        can_be_told(events),
    ensures
        djot_after(events, opts).skip == 0,
        djot_after(events, opts).blockquote_depth == open_quotes(events),
    decreases events.len(),
{
    if events.len() > 0 {
        earlier_can_be_told(events);
        reader_knows_quotes(events.drop_last(), opts);
        quotes_are_counted(events.drop_last());
    }
}

proof fn reader_knows_lists(events: Seq<DjotEventModel>, opts: DjotImportOptions)
    requires
        can_be_told(events),
    ensures
        djot_after(events, opts).lists == open_lists(events).map_values(
            |list: DjotList| list_model(list),
        ),
    decreases events.len(),
{
    let f = |list: DjotList| list_model(list);
    if events.len() > 0 {
        let rest = events.drop_last();
        earlier_can_be_told(events);
        reader_knows_quotes(rest, opts);
        reader_knows_lists(rest, opts);
        let s = djot_after(rest, opts);
        let next = djot_step(s, events.last(), opts);
        match events.last() {
            DjotEventModel::Start(DjotTag::List(list), _, _) => {
                assert(open_lists(events).map_values(f) =~= s.lists.push(list_model(list)));
            },
            DjotEventModel::End(DjotTag::List(_)) => {
                assert(open_lists(events).map_values(f) =~= next.lists);
            },
            _ => {
                assert(open_lists(events) == open_lists(rest));
                assert(next.lists == s.lists);
            },
        }
    } else {
        assert(open_lists(events).map_values(f) =~= Seq::empty());
    }
}

/// Whether the reader knows of a list item.
spec fn knows_item(s: DjotState, item: Option<OpenItem>) -> bool {
    match item {
        Some(item) => {
            &&& s.item.style == Some(list_model(item.list).style)
            &&& s.item.prefix == list_model(item.list).prefix
            &&& s.item.suffix == list_model(item.list).suffix
            &&& s.item.indent == item.depth
            &&& s.item.marker == item.marker
        },
        None => s.item.style is None && s.item.marker is None,
    }
}

proof fn item_is_entered(
    s: DjotState,
    before: Seq<DjotEventModel>,
    tag: DjotTag,
    text: Seq<char>,
    attrs: Seq<(Seq<char>, Seq<char>)>,
    opts: DjotImportOptions,
)
    requires
        s.skip == 0,
        s.lists == open_lists(before).map_values(|list: DjotList| list_model(list)),
        before.len() < u32::MAX,
        tag is ListItem || tag is TaskListItem,
    ensures
        knows_item(
            djot_step(s, DjotEventModel::Start(tag, text, attrs), opts),
            open_item(before.push(DjotEventModel::Start(tag, text, attrs))),
        ),
{
    let all = before.push(DjotEventModel::Start(tag, text, attrs));
    assert(all.drop_last() =~= before);
    lists_are_counted(before);
    let next = djot_step(s, DjotEventModel::Start(tag, text, attrs), opts);
    let lists = open_lists(before);
    if lists.len() == 0 {
        assert(next.item.prefix =~= list_model(DjotList::Bullet('-')).prefix);
        assert(next.item.suffix =~= list_model(DjotList::Bullet('-')).suffix);
    }
    if let DjotTag::TaskListItem(checked) = tag {
        assert(checked || !checked);
    }
}

proof fn reader_knows_items(events: Seq<DjotEventModel>, opts: DjotImportOptions)
    requires
        can_be_told(events),
    ensures
        knows_item(djot_after(events, opts), open_item(events)),
    decreases events.len(),
{
    if events.len() > 0 {
        let rest = events.drop_last();
        earlier_can_be_told(events);
        reader_knows_quotes(rest, opts);
        reader_knows_lists(rest, opts);
        reader_knows_items(rest, opts);
        let s = djot_after(rest, opts);
        assert(rest.push(events.last()) =~= events);
        match events.last() {
            DjotEventModel::Start(tag, text, attrs) => {
                if tag is ListItem || tag is TaskListItem {
                    item_is_entered(s, rest, tag, text, attrs, opts);
                } else {
                    assert(open_item(events) == open_item(rest));
                    assert(djot_step(s, events.last(), opts).item == s.item);
                }
            },
            DjotEventModel::End(tag) => {
                if tag is ListItem || tag is TaskListItem || tag is List || tag is Paragraph {
                } else {
                    assert(open_item(events) == open_item(rest));
                    assert(djot_step(s, events.last(), opts).item == s.item);
                }
            },
            _ => {
                assert(open_item(events) == open_item(rest));
                assert(djot_step(s, events.last(), opts).item == s.item);
            },
        }
    }
}

proof fn reader_knows(events: Seq<DjotEventModel>, opts: DjotImportOptions)
    requires
        can_be_told(events),
    ensures
        ({
            let s = djot_after(events, opts);
            &&& s.skip == 0
            &&& s.blockquote_depth == open_quotes(events)
            &&& s.lists.len() == open_lists(events).len()
            &&& knows_item(s, open_item(events))
        }),
{
    reader_knows_quotes(events, opts);
    reader_knows_lists(events, opts);
    reader_knows_items(events, opts);
}

// ─── Running on ──────────────────────────────────────────────────────

/// The state after some more events.
spec fn run(s: DjotState, events: Seq<DjotEventModel>, opts: DjotImportOptions) -> DjotState
    decreases events.len(),
{
    if events.len() == 0 {
        s
    } else {
        djot_step(run(s, events.drop_last(), opts), events.last(), opts)
    }
}

proof fn runs_on(
    before: Seq<DjotEventModel>,
    events: Seq<DjotEventModel>,
    opts: DjotImportOptions,
)
    ensures
        djot_after(before + events, opts) == run(djot_after(before, opts), events, opts),
    decreases events.len(),
{
    if events.len() == 0 {
        assert(before + events =~= before);
    } else {
        runs_on(before, events.drop_last(), opts);
        assert((before + events).drop_last() =~= before + events.drop_last());
    }
}

proof fn run_concat(
    s: DjotState,
    a: Seq<DjotEventModel>,
    b: Seq<DjotEventModel>,
    opts: DjotImportOptions,
)
    ensures
        run(s, a + b, opts) == run(run(s, a, opts), b, opts),
    decreases b.len(),
{
    if b.len() == 0 {
        assert(a + b =~= a);
    } else {
        run_concat(s, a, b.drop_last(), opts);
        assert((a + b).drop_last() =~= a + b.drop_last());
    }
}

proof fn run_one(s: DjotState, event: DjotEventModel, opts: DjotImportOptions)
    ensures
        run(s, seq![event], opts) == djot_step(s, event, opts),
{
    assert(seq![event].drop_last() =~= Seq::empty());
    assert(run(s, Seq::empty(), opts) == s);
}

/// One event, others, and one more.
proof fn run_around(
    s: DjotState,
    first: DjotEventModel,
    inner: Seq<DjotEventModel>,
    last: DjotEventModel,
    opts: DjotImportOptions,
)
    ensures
        run(s, seq![first] + inner + seq![last], opts) == djot_step(
            run(djot_step(s, first, opts), inner, opts),
            last,
            opts,
        ),
{
    run_concat(s, seq![first] + inner, seq![last], opts);
    run_concat(s, seq![first], inner, opts);
    run_one(s, first, opts);
    run_one(run(s, seq![first] + inner, opts), last, opts);
}

// ─── A line ──────────────────────────────────────────────────────────

/// The text that an event adds to a line: its own, a space for a line break in the
/// source, or the character that quotes, dashes and periods stand for.
pub open spec fn event_text(event: DjotEventModel) -> Option<Seq<char>> {
    match event {
        DjotEventModel::Str(text) => Some(text),
        DjotEventModel::Atom(DjotAtom::Softbreak) => Some(seq![' ']),
        DjotEventModel::Atom(DjotAtom::LeftSingleQuote) => Some(seq!['‘']),
        DjotEventModel::Atom(DjotAtom::RightSingleQuote) => Some(seq!['’']),
        DjotEventModel::Atom(DjotAtom::LeftDoubleQuote) => Some(seq!['“']),
        DjotEventModel::Atom(DjotAtom::RightDoubleQuote) => Some(seq!['”']),
        DjotEventModel::Atom(DjotAtom::Ellipsis) => Some(seq!['…']),
        DjotEventModel::Atom(DjotAtom::EnDash) => Some(seq!['–']),
        DjotEventModel::Atom(DjotAtom::EmDash) => Some(seq!['—']),
        DjotEventModel::Atom(DjotAtom::NonBreakingSpace) => Some(seq!['\u{A0}']),
        _ => None,
    }
}

/// Whether a construct has begun and not ended since.
#[verifier::opaque]
pub open spec fn is_on(events: Seq<DjotEventModel>, tag: DjotTag) -> bool
    decreases events.len(),
{
    events.len() > 0 && match events.last() {
        DjotEventModel::Start(t, _, _) => t == tag || is_on(events.drop_last(), tag),
        DjotEventModel::End(t) => t != tag && is_on(events.drop_last(), tag),
        _ => is_on(events.drop_last(), tag),
    }
}

/// The target of the link that has begun and not ended since.
#[verifier::opaque]
pub open spec fn link_on(events: Seq<DjotEventModel>) -> Option<Seq<char>>
    decreases events.len(),
{
    if events.len() == 0 {
        None
    } else {
        match events.last() {
            DjotEventModel::Start(DjotTag::Link, target, _) => Some(target),
            DjotEventModel::End(DjotTag::Link) => None,
            _ => link_on(events.drop_last()),
        }
    }
}

/// The image that has begun and not ended since: its source, its size by its attributes,
/// and as its description the text in it.
#[verifier::opaque]
pub open spec fn picture_on(events: Seq<DjotEventModel>) -> Option<PictureModel>
    decreases events.len(),
{
    if events.len() == 0 {
        None
    } else {
        let rest = picture_on(events.drop_last());
        match events.last() {
            DjotEventModel::Start(DjotTag::Image, src, attrs) => Some(
                PictureModel {
                    src,
                    alt: Seq::empty(),
                    width: pixels(attr_value(attrs, "width"@)),
                    height: pixels(attr_value(attrs, "height"@)),
                },
            ),
            DjotEventModel::End(DjotTag::Image) => None,
            event => match (rest, event_text(event)) {
                (Some(picture), Some(text)) => Some(
                    PictureModel { alt: picture.alt + text, ..picture },
                ),
                _ => rest,
            },
        }
    }
}

/// A piece of a line: text, an image or a footnote reference, in the formatting of the
/// constructs that are open behind some events.
pub open spec fn worn(
    before: Seq<DjotEventModel>,
    text: Seq<char>,
    image: Option<PictureModel>,
    footnote_ref: Option<Seq<char>>,
) -> SpanModel {
    SpanModel {
        text,
        bold: is_on(before, DjotTag::Strong),
        italic: is_on(before, DjotTag::Emphasis),
        underline: is_on(before, DjotTag::Insert),
        strikeout: is_on(before, DjotTag::Delete),
        code: is_on(before, DjotTag::Verbatim),
        superscript: is_on(before, DjotTag::Superscript),
        subscript: is_on(before, DjotTag::Subscript),
        link_href: link_on(before),
        image,
        footnote_ref,
    }
}

/// The pieces of a line: one for each text, image and footnote reference. Text within an
/// image is none.
#[verifier::opaque]
pub open spec fn pieces(events: Seq<DjotEventModel>) -> Seq<SpanModel>
    decreases events.len(),
{
    if events.len() == 0 {
        Seq::empty()
    } else {
        let before = events.drop_last();
        match events.last() {
            DjotEventModel::FootnoteReference(label) => pieces(before).push(
                worn(before, Seq::empty(), None, Some(label)),
            ),
            DjotEventModel::End(DjotTag::Image) => match picture_on(before) {
                Some(picture) => pieces(before).push(
                    worn(before, Seq::empty(), Some(picture), None),
                ),
                None => pieces(before),
            },
            event => match (event_text(event), picture_on(before)) {
                (Some(text), None) => pieces(before).push(worn(before, text, None, None)),
                _ => pieces(before),
            },
        }
    }
}

/// Whether a construct is part of a line.
pub open spec fn is_inline_tag(tag: DjotTag) -> bool {
    ||| tag is Strong
    ||| tag is Emphasis
    ||| tag is Verbatim
    ||| tag is Superscript
    ||| tag is Subscript
    ||| tag is Insert
    ||| tag is Delete
    ||| tag is Mark
    ||| tag is Span
    ||| tag is Link
    ||| tag is Image
}

/// Whether an event is part of a line, and does not end it.
pub open spec fn is_inline(event: DjotEventModel) -> bool {
    match event {
        DjotEventModel::Start(tag, _, _) => is_inline_tag(tag),
        DjotEventModel::End(tag) => is_inline_tag(tag),
        DjotEventModel::Atom(atom) => !(atom is Hardbreak),
        _ => true,
    }
}

/// Whether events are all part of one line.
pub open spec fn is_line(events: Seq<DjotEventModel>) -> bool {
    forall|i: int| 0 <= i < events.len() ==> is_inline(#[trigger] events[i])
}

/// Whether nothing that begins in a line is still open at its end.
pub open spec fn is_closed(events: Seq<DjotEventModel>) -> bool {
    &&& !is_on(events, DjotTag::Strong)
    &&& !is_on(events, DjotTag::Emphasis)
    &&& !is_on(events, DjotTag::Insert)
    &&& !is_on(events, DjotTag::Delete)
    &&& !is_on(events, DjotTag::Verbatim)
    &&& !is_on(events, DjotTag::Superscript)
    &&& !is_on(events, DjotTag::Subscript)
    &&& link_on(events) is None
    &&& picture_on(events) is None
}

/// Whether no formatting, link or image is open.
pub open spec fn undressed(s: DjotState) -> bool {
    &&& s.skip == 0
    &&& s.image is None
    &&& !s.marks.bold
    &&& !s.marks.italic
    &&& !s.marks.underline
    &&& !s.marks.strikeout
    &&& !s.marks.code
    &&& !s.marks.superscript
    &&& !s.marks.subscript
    &&& s.marks.link is None
}

/// Whether the reader stands between two blocks.
pub open spec fn between_blocks(s: DjotState) -> bool {
    &&& undressed(s)
    &&& s.spans.len() == 0
    &&& !s.table.in_cell
    &&& !s.is_code_block
    &&& s.code_language is None
}

/// The formatting that is open behind a line.
spec fn marks_on(line: Seq<DjotEventModel>) -> MarksModel {
    MarksModel {
        bold: is_on(line, DjotTag::Strong),
        italic: is_on(line, DjotTag::Emphasis),
        underline: is_on(line, DjotTag::Insert),
        strikeout: is_on(line, DjotTag::Delete),
        code: is_on(line, DjotTag::Verbatim),
        superscript: is_on(line, DjotTag::Superscript),
        subscript: is_on(line, DjotTag::Subscript),
        link: link_on(line),
    }
}

/// What the reader holds behind a line, read from a state without formatting.
spec fn behind_line(s: DjotState, line: Seq<DjotEventModel>) -> DjotState {
    let dressed = DjotState { marks: marks_on(line), image: picture_on(line), ..s };
    if s.table.in_cell {
        DjotState {
            table: OpenTable { cell: s.table.cell + pieces(line), ..s.table },
            ..dressed
        }
    } else {
        DjotState { spans: s.spans + pieces(line), ..dressed }
    }
}

/// What one more event changes of a construct that is open.
proof fn one_more_on(rest: Seq<DjotEventModel>, event: DjotEventModel, tag: DjotTag)
    ensures
        is_on(rest.push(event), tag) == match event {
            DjotEventModel::Start(t, _, _) => t == tag || is_on(rest, tag),
            DjotEventModel::End(t) => t != tag && is_on(rest, tag),
            _ => is_on(rest, tag),
        },
{
    reveal(is_on);
    assert(rest.push(event).drop_last() =~= rest);
}

proof fn one_more_link(rest: Seq<DjotEventModel>, event: DjotEventModel)
    ensures
        link_on(rest.push(event)) == match event {
            DjotEventModel::Start(DjotTag::Link, target, _) => Some(target),
            DjotEventModel::End(DjotTag::Link) => None,
            _ => link_on(rest),
        },
{
    reveal(link_on);
    assert(rest.push(event).drop_last() =~= rest);
}

proof fn one_more_picture(rest: Seq<DjotEventModel>, event: DjotEventModel)
    ensures
        picture_on(rest.push(event)) == match event {
            DjotEventModel::Start(DjotTag::Image, src, attrs) => Some(
                PictureModel {
                    src,
                    alt: Seq::empty(),
                    width: pixels(attr_value(attrs, "width"@)),
                    height: pixels(attr_value(attrs, "height"@)),
                },
            ),
            DjotEventModel::End(DjotTag::Image) => None,
            _ => match (picture_on(rest), event_text(event)) {
                (Some(picture), Some(text)) => Some(
                    PictureModel { alt: picture.alt + text, ..picture },
                ),
                _ => picture_on(rest),
            },
        },
{
    reveal(picture_on);
    assert(rest.push(event).drop_last() =~= rest);
}

proof fn one_more_piece(rest: Seq<DjotEventModel>, event: DjotEventModel)
    ensures
        pieces(rest.push(event)) == match event {
            DjotEventModel::FootnoteReference(label) => pieces(rest).push(
                worn(rest, Seq::empty(), None, Some(label)),
            ),
            DjotEventModel::End(DjotTag::Image) => match picture_on(rest) {
                Some(picture) => pieces(rest).push(worn(rest, Seq::empty(), Some(picture), None)),
                None => pieces(rest),
            },
            _ => match (event_text(event), picture_on(rest)) {
                (Some(text), None) => pieces(rest).push(worn(rest, text, None, None)),
                _ => pieces(rest),
            },
        },
{
    reveal(pieces);
    assert(rest.push(event).drop_last() =~= rest);
}

proof fn one_more_mark(rest: Seq<DjotEventModel>, event: DjotEventModel)
    ensures
        marks_on(rest.push(event)) == match event {
            DjotEventModel::Start(tag, text, _) => set_mark(marks_on(rest), tag, true, text),
            DjotEventModel::End(tag) => set_mark(marks_on(rest), tag, false, Seq::empty()),
            _ => marks_on(rest),
        },
{
    one_more_on(rest, event, DjotTag::Strong);
    one_more_on(rest, event, DjotTag::Emphasis);
    one_more_on(rest, event, DjotTag::Insert);
    one_more_on(rest, event, DjotTag::Delete);
    one_more_on(rest, event, DjotTag::Verbatim);
    one_more_on(rest, event, DjotTag::Superscript);
    one_more_on(rest, event, DjotTag::Subscript);
    one_more_link(rest, event);
    let marks = marks_on(rest.push(event));
    match event {
        DjotEventModel::Start(tag, text, _) => {
            assert(marks =~= set_mark(marks_on(rest), tag, true, text));
        },
        DjotEventModel::End(tag) => {
            assert(marks =~= set_mark(marks_on(rest), tag, false, Seq::empty()));
        },
        _ => {
            assert(marks =~= marks_on(rest));
        },
    }
}

/// The spans of the open cell or block, with more behind them.
spec fn with_pieces(s: DjotState, more: Seq<SpanModel>) -> DjotState {
    if s.table.in_cell {
        DjotState { table: OpenTable { cell: s.table.cell + more, ..s.table }, ..s }
    } else {
        DjotState { spans: s.spans + more, ..s }
    }
}

proof fn one_more_span(s: DjotState, more: Seq<SpanModel>, span: SpanModel)
    ensures
        add_djot_span(with_pieces(s, more), span) == with_pieces(s, more.push(span)),
{
    assert(s.spans + more.push(span) =~= (s.spans + more).push(span));
    assert(s.table.cell + more.push(span) =~= (s.table.cell + more).push(span));
    assert(add_djot_span(with_pieces(s, more), span) =~= with_pieces(s, more.push(span)));
}

proof fn behind_line_is(s: DjotState, line: Seq<DjotEventModel>)
    ensures
        behind_line(s, line) == with_pieces(
            DjotState { marks: marks_on(line), image: picture_on(line), ..s },
            pieces(line),
        ),
{
}

proof fn line_step_start(
    s: DjotState,
    rest: Seq<DjotEventModel>,
    tag: DjotTag,
    text: Seq<char>,
    attrs: Seq<(Seq<char>, Seq<char>)>,
    opts: DjotImportOptions,
)
    requires
        s.skip == 0,
        is_inline_tag(tag),
    ensures
        djot_step(behind_line(s, rest), DjotEventModel::Start(tag, text, attrs), opts)
            == behind_line(s, rest.push(DjotEventModel::Start(tag, text, attrs))),
{
    let event = DjotEventModel::Start(tag, text, attrs);
    one_more_mark(rest, event);
    one_more_picture(rest, event);
    one_more_piece(rest, event);
    let now = behind_line(s, rest);
    let wanted = behind_line(s, rest.push(event));
    assert(pieces(rest.push(event)) == pieces(rest));
    if tag is Image {
        assert(djot_open(now, tag, text, attrs, opts) =~= wanted);
    } else {
        assert(wanted =~= DjotState { marks: set_mark(now.marks, tag, true, text), ..now });
    }
}

proof fn line_step_end(
    s: DjotState,
    rest: Seq<DjotEventModel>,
    tag: DjotTag,
    opts: DjotImportOptions,
)
    requires
        s.skip == 0,
        is_inline_tag(tag),
    ensures
        djot_step(behind_line(s, rest), DjotEventModel::End(tag), opts) == behind_line(
            s,
            rest.push(DjotEventModel::End(tag)),
        ),
{
    let event = DjotEventModel::End(tag);
    one_more_mark(rest, event);
    one_more_picture(rest, event);
    one_more_piece(rest, event);
    let now = behind_line(s, rest);
    let wanted = behind_line(s, rest.push(event));
    if tag is Image {
        if let Some(picture) = picture_on(rest) {
            let bare = DjotState { marks: marks_on(rest), image: None, ..s };
            let span = worn(rest, Seq::empty(), Some(picture), None);
            one_more_span(bare, pieces(rest), span);
            assert(span =~= SpanModel {
                image: Some(picture),
                ..marked_span(now.marks, Seq::empty())
            });
            assert(with_pieces(bare, pieces(rest)) =~= DjotState { image: None, ..now });
            assert(wanted =~= with_pieces(bare, pieces(rest).push(span)));
        } else {
            assert(wanted =~= now);
        }
    } else {
        assert(pieces(rest.push(event)) == pieces(rest));
        assert(wanted =~= DjotState {
            marks: set_mark(now.marks, tag, false, Seq::empty()),
            ..now
        });
    }
}

/// Text is read, whether it is written out or stands for itself.
proof fn text_is_read(s: DjotState, event: DjotEventModel, opts: DjotImportOptions)
    requires
        s.skip == 0,
        is_inline(event),
        event is Str || event is Atom,
    ensures
        djot_step(s, event, opts) == match event_text(event) {
            Some(text) => read_text(s, text),
            None => s,
        },
{
    if let DjotEventModel::Atom(atom) = event {
        assert(atom_char(atom) matches Some(c) ==> event_text(event) == Some(seq![c]));
    }
}

proof fn line_step_note(
    s: DjotState,
    rest: Seq<DjotEventModel>,
    label: Seq<char>,
    opts: DjotImportOptions,
)
    requires
        s.skip == 0,
    ensures
        djot_step(behind_line(s, rest), DjotEventModel::FootnoteReference(label), opts)
            == behind_line(s, rest.push(DjotEventModel::FootnoteReference(label))),
{
    let event = DjotEventModel::FootnoteReference(label);
    one_more_mark(rest, event);
    one_more_picture(rest, event);
    one_more_piece(rest, event);
    let now = behind_line(s, rest);
    let bare = DjotState { marks: marks_on(rest), image: picture_on(rest), ..s };
    behind_line_is(s, rest);
    behind_line_is(s, rest.push(event));
    let span = worn(rest, Seq::empty(), None, Some(label));
    assert(span =~= SpanModel {
        footnote_ref: Some(label),
        ..marked_span(now.marks, Seq::empty())
    });
    one_more_span(bare, pieces(rest), span);
}

proof fn line_step_text(
    s: DjotState,
    rest: Seq<DjotEventModel>,
    event: DjotEventModel,
    opts: DjotImportOptions,
)
    requires
        s.skip == 0,
        is_inline(event),
        event is Str || event is Atom,
    ensures
        djot_step(behind_line(s, rest), event, opts) == behind_line(s, rest.push(event)),
{
    one_more_mark(rest, event);
    one_more_picture(rest, event);
    one_more_piece(rest, event);
    let now = behind_line(s, rest);
    text_is_read(now, event, opts);
    dressing_is_read(s, rest, event);
}

proof fn dressing_is_read(s: DjotState, rest: Seq<DjotEventModel>, event: DjotEventModel)
    requires
        marks_on(rest.push(event)) == marks_on(rest),
        picture_on(rest.push(event)) == match (picture_on(rest), event_text(event)) {
            (Some(picture), Some(text)) => Some(
                PictureModel { alt: picture.alt + text, ..picture },
            ),
            _ => picture_on(rest),
        },
        pieces(rest.push(event)) == match (event_text(event), picture_on(rest)) {
            (Some(text), None) => pieces(rest).push(worn(rest, text, None, None)),
            _ => pieces(rest),
        },
    ensures
        behind_line(s, rest.push(event)) == match event_text(event) {
            Some(text) => read_text(behind_line(s, rest), text),
            None => behind_line(s, rest),
        },
{
    let now = behind_line(s, rest);
    let wanted = behind_line(s, rest.push(event));
    let bare = DjotState { marks: marks_on(rest), image: picture_on(rest), ..s };
    behind_line_is(s, rest);
    behind_line_is(s, rest.push(event));
    match event_text(event) {
        Some(text) => {
            if picture_on(rest) is None {
                let span = worn(rest, text, None, None);
                assert(span =~= marked_span(now.marks, text));
                one_more_span(bare, pieces(rest), span);
            } else {
                assert(read_text(now, text) =~= wanted);
            }
        },
        None => {
            assert(wanted =~= now);
        },
    }
}

/// What one event of a line changes.
proof fn line_step(
    s: DjotState,
    rest: Seq<DjotEventModel>,
    event: DjotEventModel,
    opts: DjotImportOptions,
)
    requires
        s.skip == 0,
        is_inline(event),
    ensures
        djot_step(behind_line(s, rest), event, opts) == behind_line(s, rest.push(event)),
{
    match event {
        DjotEventModel::Start(tag, text, attrs) => {
            line_step_start(s, rest, tag, text, attrs, opts);
        },
        DjotEventModel::End(tag) => {
            line_step_end(s, rest, tag, opts);
        },
        DjotEventModel::FootnoteReference(label) => {
            line_step_note(s, rest, label, opts);
        },
        _ => {
            line_step_text(s, rest, event, opts);
        },
    }
}

proof fn line_runs(s: DjotState, line: Seq<DjotEventModel>, opts: DjotImportOptions)
    requires
        undressed(s),
        is_line(line),
    ensures
        run(s, line, opts) == behind_line(s, line),
    decreases line.len(),
{
    if line.len() == 0 {
        reveal(is_on);
        reveal(link_on);
        reveal(picture_on);
        reveal(pieces);
        assert(s.spans + pieces(line) =~= s.spans);
        assert(s.table.cell + pieces(line) =~= s.table.cell);
        assert(run(s, line, opts) =~= behind_line(s, line));
    } else {
        let rest = line.drop_last();
        assert(is_line(rest)) by {
            assert forall|i: int| 0 <= i < rest.len() implies is_inline(#[trigger] rest[i]) by {
                assert(rest[i] == line[i]);
            }
        }
        line_runs(s, rest, opts);
        assert(is_inline(line[line.len() - 1]));
        assert(rest.push(line.last()) =~= line);
        line_step(s, rest, line.last(), opts);
    }
}

// ─── Blocks ──────────────────────────────────────────────────────────

/// How a block of a list looks: `-` is a disc, `*` a circle, `+` a square; a number
/// stands with a period, with one bracket or between two.
pub open spec fn looks_like(block: BlockModel, list: DjotList) -> bool {
    match list {
        DjotList::Bullet(bullet) => {
            &&& bullet == '-' ==> block.list_style == Some(ListStyle::Disc)
            &&& bullet == '*' ==> block.list_style == Some(ListStyle::Circle)
            &&& bullet == '+' ==> block.list_style == Some(ListStyle::Square)
            &&& block.list_prefix.len() == 0
            &&& block.list_suffix.len() == 0
        },
        DjotList::Ordered(numbering, delimiter) => {
            &&& block.list_style == Some(
                match numbering {
                    DjotNumbering::Decimal => ListStyle::Decimal,
                    DjotNumbering::AlphaLower => ListStyle::LowerAlpha,
                    DjotNumbering::AlphaUpper => ListStyle::UpperAlpha,
                    DjotNumbering::RomanLower => ListStyle::LowerRoman,
                    DjotNumbering::RomanUpper => ListStyle::UpperRoman,
                },
            )
            &&& block.list_prefix == if delimiter is ParenParen {
                seq!['(']
            } else {
                Seq::empty()
            }
            &&& block.list_suffix == if delimiter is Period {
                seq!['.']
            } else {
                seq![')']
            }
        },
    }
}

/// Whether a block belongs to a list item, or to none.
pub open spec fn belongs_to(block: BlockModel, item: Option<OpenItem>) -> bool {
    match item {
        Some(item) => {
            &&& looks_like(block, item.list)
            &&& block.list_indent == item.depth
            &&& block.marker == item.marker
        },
        None => block.list_style is None && block.marker is None,
    }
}

/// Whether a block has a style, and no other.
pub open spec fn has_style(block: BlockModel, style: StyleModel) -> bool {
    &&& block.alignment == style.alignment
    &&& block.line_height == style.line_height
    &&& block.non_breakable_lines == style.non_breakable_lines
    &&& block.page_break_before == style.page_break_before
    &&& block.direction == style.direction
    &&& block.background_color == style.background_color
    &&& block.top_margin == style.top_margin
    &&& block.text_indent == style.text_indent
    &&& block.semantic_role == style.semantic_role
}

/// Whether a block has no style.
pub open spec fn has_no_style(block: BlockModel) -> bool {
    &&& block.alignment is None
    &&& block.line_height is None
    &&& block.non_breakable_lines is None
    &&& block.page_break_before is None
    &&& block.direction is None
    &&& block.background_color is None
    &&& block.top_margin is None
    &&& block.text_indent is None
    &&& block.semantic_role is None
}

/// Whether a block is text in no code block.
pub open spec fn is_prose(block: BlockModel) -> bool {
    !block.is_code_block && block.code_language is None
}

proof fn item_looks(block: BlockModel, list: DjotList)
    requires
        block.list_style == Some(list_model(list).style),
        block.list_prefix == list_model(list).prefix,
        block.list_suffix == list_model(list).suffix,
    ensures
        looks_like(block, list),
{
    reveal_strlit(".");
    reveal_strlit(")");
    reveal_strlit("(");
    if let DjotList::Ordered(_, delimiter) = list {
        assert("."@ =~= seq!['.']);
        assert(")"@ =~= seq![')']);
        assert("("@ =~= seq!['(']);
    }
}

/// The events of a paragraph.
pub open spec fn paragraph_events(
    attrs: Seq<(Seq<char>, Seq<char>)>,
    line: Seq<DjotEventModel>,
) -> Seq<DjotEventModel> {
    seq![DjotEventModel::Start(DjotTag::Paragraph, Seq::empty(), attrs)] + line + seq![
        DjotEventModel::End(DjotTag::Paragraph),
    ]
}

/// A paragraph is one block behind what was read before: its pieces are those of its
/// line, in order; it stands in the blockquotes that are open, and carries the marker of
/// the list item that it is the first paragraph of; and outside of lists it has the style
/// that its attributes give.
pub proof fn paragraph_is_its_line(
    before: Seq<DjotEventModel>,
    attrs: Seq<(Seq<char>, Seq<char>)>,
    line: Seq<DjotEventModel>,
    opts: DjotImportOptions,
)
    requires
        can_be_told(before),
        between_blocks(djot_after(before, opts)),
        is_line(line),
        pieces(line).len() > 0,
    ensures
        ({
            let done = djot_after(before, opts).elements;
            let events = before + paragraph_events(attrs, line);
            let all = djot_elements(events, opts);
            &&& all.len() == done.len() + 1
            &&& all.take(done.len() as int) == done
            &&& all.last() matches ElementModel::Block(block) && {
                &&& block.spans == pieces(line)
                &&& block.heading_level is None
                &&& is_prose(block)
                &&& block.blockquote_depth == open_quotes(before)
                &&& belongs_to(block, open_item(before))
                &&& open_lists(before).len() == 0 ==> has_style(block, attrs_style(attrs, opts))
                &&& open_lists(before).len() > 0 ==> has_no_style(block)
            }
            &&& is_closed(line) ==> between_blocks(djot_after(events, opts))
        }),
{
    let first = DjotEventModel::Start(DjotTag::Paragraph, Seq::empty(), attrs);
    let last = DjotEventModel::End(DjotTag::Paragraph);
    let s = djot_after(before, opts);
    reader_knows(before, opts);
    runs_on(before, paragraph_events(attrs, line), opts);
    run_around(s, first, line, last, opts);
    let begun = djot_step(s, first, opts);
    line_runs(begun, line, opts);
    let full = run(begun, line, opts);
    assert(full.spans =~= pieces(line));
    let next = djot_step(full, last, opts);
    assert(next.elements.drop_last() =~= s.elements);
    let all = djot_elements(before + paragraph_events(attrs, line), opts);
    assert(all == next.elements);
    assert(all.take(s.elements.len() as int) =~= s.elements);
    let block = all.last()->Block_0;
    if let Some(item) = open_item(before) {
        item_looks(block, item.list);
    }
}

/// The events of a heading.
pub open spec fn heading_events(
    level: u16,
    attrs: Seq<(Seq<char>, Seq<char>)>,
    line: Seq<DjotEventModel>,
) -> Seq<DjotEventModel> {
    seq![DjotEventModel::Start(DjotTag::Heading(level), Seq::empty(), attrs)] + line + seq![
        DjotEventModel::End(DjotTag::Heading(level)),
    ]
}

/// A value, or else another.
pub open spec fn or_else<T>(value: Option<T>, other: Option<T>) -> Option<T> {
    match value {
        Some(_) => value,
        None => other,
    }
}

/// A heading is one block of its level behind what was read before, even without text.
/// It belongs to no list item. Its attributes go before those of the section around it.
pub proof fn heading_is_its_line(
    before: Seq<DjotEventModel>,
    level: u16,
    attrs: Seq<(Seq<char>, Seq<char>)>,
    line: Seq<DjotEventModel>,
    opts: DjotImportOptions,
)
    requires
        can_be_told(before),
        between_blocks(djot_after(before, opts)),
        is_line(line),
    ensures
        ({
            let done = djot_after(before, opts).elements;
            let around = djot_after(before, opts).style;
            let own = attrs_style(attrs, opts);
            let events = before + heading_events(level, attrs, line);
            let all = djot_elements(events, opts);
            &&& all.len() == done.len() + 1
            &&& all.take(done.len() as int) == done
            &&& all.last() matches ElementModel::Block(block) && {
                &&& block.spans == pieces(line)
                &&& block.heading_level == Some(level as i64)
                &&& is_prose(block)
                &&& block.blockquote_depth == open_quotes(before)
                &&& belongs_to(block, None)
                &&& block.alignment == or_else(own.alignment, around.alignment)
                &&& block.line_height == or_else(own.line_height, around.line_height)
                &&& block.non_breakable_lines == or_else(
                    own.non_breakable_lines,
                    around.non_breakable_lines,
                )
                &&& block.page_break_before == or_else(
                    own.page_break_before,
                    around.page_break_before,
                )
                &&& block.direction == or_else(own.direction, around.direction)
                &&& block.background_color == or_else(
                    own.background_color,
                    around.background_color,
                )
                &&& block.top_margin == or_else(own.top_margin, around.top_margin)
                &&& block.text_indent == or_else(own.text_indent, around.text_indent)
                &&& block.semantic_role == or_else(own.semantic_role, around.semantic_role)
            }
            &&& is_closed(line) ==> between_blocks(djot_after(events, opts))
        }),
{
    let first = DjotEventModel::Start(DjotTag::Heading(level), Seq::empty(), attrs);
    let last = DjotEventModel::End(DjotTag::Heading(level));
    let s = djot_after(before, opts);
    reader_knows(before, opts);
    runs_on(before, heading_events(level, attrs, line), opts);
    run_around(s, first, line, last, opts);
    let begun = djot_step(s, first, opts);
    line_runs(begun, line, opts);
    let full = run(begun, line, opts);
    assert(full.spans =~= pieces(line));
    let next = djot_step(full, last, opts);
    let all = djot_elements(before + heading_events(level, attrs, line), opts);
    assert(all == next.elements);
    assert(all.take(s.elements.len() as int) =~= s.elements);
}

/// The reader begins between two blocks, with nothing read.
pub proof fn reading_begins_between_blocks(opts: DjotImportOptions)
    ensures
        between_blocks(djot_after(Seq::empty(), opts)),
        djot_after(Seq::empty(), opts).elements.len() == 0,
{
}

/// Whether a construct holds blocks and is none itself.
pub open spec fn is_around_blocks(tag: DjotTag) -> bool {
    ||| tag is Document
    ||| tag is Section
    ||| tag is Div
    ||| tag is Blockquote
    ||| tag is List
    ||| tag is ListItem
    ||| tag is TaskListItem
}

/// Where a construct that holds blocks begins or ends between two blocks, nothing is
/// added to what was read.
pub proof fn holders_add_nothing(
    before: Seq<DjotEventModel>,
    event: DjotEventModel,
    opts: DjotImportOptions,
)
    requires
        between_blocks(djot_after(before, opts)),
        match event {
            DjotEventModel::Start(tag, _, _) => is_around_blocks(tag),
            DjotEventModel::End(tag) => is_around_blocks(tag),
            _ => false,
        },
    ensures
        between_blocks(djot_after(before.push(event), opts)),
        djot_after(before.push(event), opts).elements == djot_after(before, opts).elements,
{
    assert(before.push(event).drop_last() =~= before);
}

/// The attributes of a section outside of lists go before the style that was open. This
/// is the style around the heading that follows.
pub proof fn section_sets_the_style_around(
    before: Seq<DjotEventModel>,
    attrs: Seq<(Seq<char>, Seq<char>)>,
    opts: DjotImportOptions,
)
    requires
        can_be_told(before),
        open_lists(before).len() == 0,
    ensures
        ({
            let event = DjotEventModel::Start(DjotTag::Section, Seq::empty(), attrs);
            let around = djot_after(before, opts).style;
            let own = attrs_style(attrs, opts);
            let style = djot_after(before.push(event), opts).style;
            &&& style.alignment == or_else(own.alignment, around.alignment)
            &&& style.line_height == or_else(own.line_height, around.line_height)
            &&& style.non_breakable_lines == or_else(
                own.non_breakable_lines,
                around.non_breakable_lines,
            )
            &&& style.page_break_before == or_else(
                own.page_break_before,
                around.page_break_before,
            )
            &&& style.direction == or_else(own.direction, around.direction)
            &&& style.background_color == or_else(own.background_color, around.background_color)
            &&& style.top_margin == or_else(own.top_margin, around.top_margin)
            &&& style.text_indent == or_else(own.text_indent, around.text_indent)
            &&& style.semantic_role == or_else(own.semantic_role, around.semantic_role)
        }),
{
    let event = DjotEventModel::Start(DjotTag::Section, Seq::empty(), attrs);
    assert(before.push(event).drop_last() =~= before);
    reader_knows(before, opts);
}

/// In a list the attributes of a section are not read.
pub proof fn sections_in_lists_set_no_style(
    before: Seq<DjotEventModel>,
    attrs: Seq<(Seq<char>, Seq<char>)>,
    opts: DjotImportOptions,
)
    requires
        can_be_told(before),
        open_lists(before).len() > 0,
    ensures
        djot_after(
            before.push(DjotEventModel::Start(DjotTag::Section, Seq::empty(), attrs)),
            opts,
        ).style == djot_after(before, opts).style,
{
    let event = DjotEventModel::Start(DjotTag::Section, Seq::empty(), attrs);
    assert(before.push(event).drop_last() =~= before);
    reader_knows(before, opts);
}

/// A block that has a style leaves none of it to the next: behind a paragraph or a
/// heading the style around is empty.
pub proof fn styles_do_not_carry_over(
    before: Seq<DjotEventModel>,
    level: u16,
    attrs: Seq<(Seq<char>, Seq<char>)>,
    line: Seq<DjotEventModel>,
    opts: DjotImportOptions,
)
    requires
        between_blocks(djot_after(before, opts)),
        is_line(line),
        pieces(line).len() > 0,
    ensures
        djot_after(before + paragraph_events(attrs, line), opts).style == no_style(),
        djot_after(before + heading_events(level, attrs, line), opts).style == no_style(),
{
    let s = djot_after(before, opts);
    let first = DjotEventModel::Start(DjotTag::Paragraph, Seq::empty(), attrs);
    runs_on(before, paragraph_events(attrs, line), opts);
    run_around(s, first, line, DjotEventModel::End(DjotTag::Paragraph), opts);
    line_runs(djot_step(s, first, opts), line, opts);
    let first = DjotEventModel::Start(DjotTag::Heading(level), Seq::empty(), attrs);
    runs_on(before, heading_events(level, attrs, line), opts);
    run_around(s, first, line, DjotEventModel::End(DjotTag::Heading(level)), opts);
    line_runs(djot_step(s, first, opts), line, opts);
}

/// A line right in a list item is a block of that item.
pub proof fn item_is_its_line(
    before: Seq<DjotEventModel>,
    tag: DjotTag,
    line: Seq<DjotEventModel>,
    opts: DjotImportOptions,
)
    requires
        can_be_told(before),
        before.len() < u32::MAX,
        between_blocks(djot_after(before, opts)),
        tag is ListItem || tag is TaskListItem,
        is_line(line),
        pieces(line).len() > 0,
    ensures
        ({
            let done = djot_after(before, opts).elements;
            let begun = before.push(DjotEventModel::Start(tag, Seq::empty(), Seq::empty()));
            let events = begun + line + seq![DjotEventModel::End(tag)];
            let all = djot_elements(events, opts);
            &&& all.len() == done.len() + 1
            &&& all.take(done.len() as int) == done
            &&& all.last() matches ElementModel::Block(block) && {
                &&& block.spans == pieces(line)
                &&& block.heading_level is None
                &&& is_prose(block)
                &&& block.blockquote_depth == open_quotes(before)
                &&& belongs_to(block, open_item(begun))
                &&& has_no_style(block)
            }
            &&& is_closed(line) ==> between_blocks(djot_after(events, opts))
        }),
{
    let first = DjotEventModel::Start(tag, Seq::empty(), Seq::empty());
    let last = DjotEventModel::End(tag);
    let begun = before.push(first);
    let s = djot_after(before, opts);
    reader_knows(before, opts);
    reader_knows_lists(before, opts);
    item_is_entered(s, before, tag, Seq::empty(), Seq::empty(), opts);
    assert(begun + line + seq![last] =~= before + (seq![first] + line + seq![last]));
    runs_on(before, seq![first] + line + seq![last], opts);
    run_around(s, first, line, last, opts);
    let entered = djot_step(s, first, opts);
    line_runs(entered, line, opts);
    let full = run(entered, line, opts);
    assert(full.spans =~= pieces(line));
    let next = djot_step(full, last, opts);
    let all = djot_elements(begun + line + seq![last], opts);
    assert(all == next.elements);
    assert(all.take(s.elements.len() as int) =~= s.elements);
    let block = all.last()->Block_0;
    if let Some(item) = open_item(begun) {
        item_looks(block, item.list);
    }
}

/// A hard break ends a block and begins another: the two lines are blocks one behind the
/// other.
pub proof fn hard_break_parts_a_paragraph(
    before: Seq<DjotEventModel>,
    attrs: Seq<(Seq<char>, Seq<char>)>,
    a: Seq<DjotEventModel>,
    b: Seq<DjotEventModel>,
    opts: DjotImportOptions,
)
    requires
        can_be_told(before),
        between_blocks(djot_after(before, opts)),
        is_line(a),
        is_line(b),
        is_closed(a),
        pieces(a).len() > 0,
        pieces(b).len() > 0,
    ensures
        ({
            let done = djot_after(before, opts).elements;
            let line = a + seq![DjotEventModel::Atom(DjotAtom::Hardbreak)] + b;
            let all = djot_elements(before + paragraph_events(attrs, line), opts);
            &&& all.len() == done.len() + 2
            &&& all.take(done.len() as int) == done
            &&& all[done.len() as int] matches ElementModel::Block(block) && {
                &&& block.spans == pieces(a)
                &&& block.heading_level is None
                &&& is_prose(block)
                &&& block.blockquote_depth == open_quotes(before)
                &&& belongs_to(block, open_item(before))
                &&& open_lists(before).len() == 0 ==> has_style(block, attrs_style(attrs, opts))
                &&& open_lists(before).len() > 0 ==> has_no_style(block)
            }
            &&& all.last() matches ElementModel::Block(block) && {
                &&& block.spans == pieces(b)
                &&& block.heading_level is None
                &&& is_prose(block)
                &&& block.blockquote_depth == open_quotes(before)
                &&& belongs_to(block, open_item(before))
                &&& open_lists(before).len() == 0 ==> has_style(block, attrs_style(attrs, opts))
                &&& open_lists(before).len() > 0 ==> has_no_style(block)
            }
        }),
{
    let first = DjotEventModel::Start(DjotTag::Paragraph, Seq::empty(), attrs);
    let last = DjotEventModel::End(DjotTag::Paragraph);
    let brk = DjotEventModel::Atom(DjotAtom::Hardbreak);
    let line = a + seq![brk] + b;
    let s = djot_after(before, opts);
    reader_knows(before, opts);
    runs_on(before, paragraph_events(attrs, line), opts);
    run_around(s, first, line, last, opts);
    let begun = djot_step(s, first, opts);
    run_concat(begun, a + seq![brk], b, opts);
    run_concat(begun, a, seq![brk], opts);
    line_runs(begun, a, opts);
    let one = run(begun, a, opts);
    assert(one.spans =~= pieces(a));
    run_one(one, brk, opts);
    let broken = djot_step(one, brk, opts);
    line_runs(broken, b, opts);
    let full = run(broken, b, opts);
    assert(full.spans =~= pieces(b));
    let next = djot_step(full, last, opts);
    let all = djot_elements(before + paragraph_events(attrs, line), opts);
    assert(all == next.elements);
    assert(all.take(s.elements.len() as int) =~= s.elements);
    if let Some(item) = open_item(before) {
        item_looks(all.last()->Block_0, item.list);
        item_looks(all[s.elements.len() as int]->Block_0, item.list);
    }
}

/// A hard break in a heading ends a paragraph, which belongs to the list item that is open
/// where there is one; what stands behind it is the heading.
pub proof fn hard_break_parts_a_heading(
    before: Seq<DjotEventModel>,
    level: u16,
    attrs: Seq<(Seq<char>, Seq<char>)>,
    a: Seq<DjotEventModel>,
    b: Seq<DjotEventModel>,
    opts: DjotImportOptions,
)
    requires
        can_be_told(before),
        between_blocks(djot_after(before, opts)),
        is_line(a),
        is_line(b),
        is_closed(a),
        pieces(a).len() > 0,
    ensures
        ({
            let done = djot_after(before, opts).elements;
            let line = a + seq![DjotEventModel::Atom(DjotAtom::Hardbreak)] + b;
            let all = djot_elements(before + heading_events(level, attrs, line), opts);
            &&& all.len() == done.len() + 2
            &&& all.take(done.len() as int) == done
            &&& all[done.len() as int] matches ElementModel::Block(block) && {
                &&& block.spans == pieces(a)
                &&& block.heading_level is None
                &&& is_prose(block)
                &&& block.blockquote_depth == open_quotes(before)
                &&& belongs_to(block, open_item(before))
            }
            &&& all.last() matches ElementModel::Block(block) && {
                &&& block.spans == pieces(b)
                &&& block.heading_level == Some(level as i64)
                &&& is_prose(block)
                &&& block.blockquote_depth == open_quotes(before)
                &&& belongs_to(block, None)
            }
        }),
{
    let first = DjotEventModel::Start(DjotTag::Heading(level), Seq::empty(), attrs);
    let last = DjotEventModel::End(DjotTag::Heading(level));
    let brk = DjotEventModel::Atom(DjotAtom::Hardbreak);
    let line = a + seq![brk] + b;
    let s = djot_after(before, opts);
    reader_knows(before, opts);
    runs_on(before, heading_events(level, attrs, line), opts);
    run_around(s, first, line, last, opts);
    let begun = djot_step(s, first, opts);
    run_concat(begun, a + seq![brk], b, opts);
    run_concat(begun, a, seq![brk], opts);
    line_runs(begun, a, opts);
    let one = run(begun, a, opts);
    assert(one.spans =~= pieces(a));
    run_one(one, brk, opts);
    let broken = djot_step(one, brk, opts);
    line_runs(broken, b, opts);
    let full = run(broken, b, opts);
    assert(full.spans =~= pieces(b));
    let next = djot_step(full, last, opts);
    let all = djot_elements(before + heading_events(level, attrs, line), opts);
    assert(all == next.elements);
    assert(all.take(s.elements.len() as int) =~= s.elements);
    if let Some(item) = open_item(before) {
        item_looks(all[s.elements.len() as int]->Block_0, item.list);
    }
}

/// A list item that begins where a line of another is open ends that line: it is a block
/// of the item it stands in, and the reader stands between two blocks.
pub proof fn inner_item_ends_the_line(
    before: Seq<DjotEventModel>,
    tag: DjotTag,
    line: Seq<DjotEventModel>,
    list: DjotList,
    inner: DjotTag,
    opts: DjotImportOptions,
)
    requires
        can_be_told(before),
        before.len() < u32::MAX,
        between_blocks(djot_after(before, opts)),
        tag is ListItem || tag is TaskListItem,
        inner is ListItem || inner is TaskListItem,
        is_line(line),
        is_closed(line),
        pieces(line).len() > 0,
    ensures
        ({
            let done = djot_after(before, opts).elements;
            let begun = before.push(DjotEventModel::Start(tag, Seq::empty(), Seq::empty()));
            let events = before + (seq![
                DjotEventModel::Start(tag, Seq::empty(), Seq::empty()),
            ] + line + seq![
                DjotEventModel::Start(DjotTag::List(list), Seq::empty(), Seq::empty()),
            ] + seq![DjotEventModel::Start(inner, Seq::empty(), Seq::empty())]);
            let all = djot_after(events, opts).elements;
            &&& between_blocks(djot_after(events, opts))
            &&& all.len() == done.len() + 1
            &&& all.take(done.len() as int) == done
            &&& all.last() matches ElementModel::Block(block) && {
                &&& block.spans == pieces(line)
                &&& block.heading_level is None
                &&& is_prose(block)
                &&& block.blockquote_depth == open_quotes(before)
                &&& belongs_to(block, open_item(begun))
                &&& has_no_style(block)
            }
        }),
{
    let first = DjotEventModel::Start(tag, Seq::empty(), Seq::empty());
    let mid = DjotEventModel::Start(DjotTag::List(list), Seq::empty(), Seq::empty());
    let last = DjotEventModel::Start(inner, Seq::empty(), Seq::empty());
    let begun = before.push(first);
    let s = djot_after(before, opts);
    reader_knows(before, opts);
    reader_knows_lists(before, opts);
    item_is_entered(s, before, tag, Seq::empty(), Seq::empty(), opts);
    let most = seq![first] + line + seq![mid];
    runs_on(before, most + seq![last], opts);
    run_concat(s, most, seq![last], opts);
    run_around(s, first, line, mid, opts);
    run_one(run(s, most, opts), last, opts);
    let entered = djot_step(s, first, opts);
    line_runs(entered, line, opts);
    let full = run(entered, line, opts);
    assert(full.spans =~= pieces(line));
    let all = djot_after(before + (most + seq![last]), opts).elements;
    assert(all.take(s.elements.len() as int) =~= s.elements);
    let block = all.last()->Block_0;
    if let Some(item) = open_item(begun) {
        item_looks(block, item.list);
    }
}

/// A line that is still open where a document ends is its last block.
pub proof fn open_line_is_the_last_block(
    before: Seq<DjotEventModel>,
    line: Seq<DjotEventModel>,
    opts: DjotImportOptions,
)
    requires
        can_be_told(before),
        between_blocks(djot_after(before, opts)),
        is_line(line),
        pieces(line).len() > 0,
    ensures
        ({
            let done = djot_after(before, opts).elements;
            let all = djot_elements(before + line, opts);
            &&& all.len() == done.len() + 1
            &&& all.take(done.len() as int) == done
            &&& all.last() matches ElementModel::Block(block) && {
                &&& block.spans == pieces(line)
                &&& is_prose(block)
                &&& block.blockquote_depth == open_quotes(before)
                &&& belongs_to(block, open_item(before))
            }
        }),
{
    let s = djot_after(before, opts);
    reader_knows(before, opts);
    runs_on(before, line, opts);
    line_runs(s, line, opts);
    let full = run(s, line, opts);
    assert(full.spans =~= pieces(line));
    let all = djot_elements(before + line, opts);
    assert(all.take(s.elements.len() as int) =~= s.elements);
    if let Some(item) = open_item(before) {
        item_looks(all.last()->Block_0, item.list);
    }
}

/// A document that ends between two blocks is what was read of it, or an empty paragraph
/// where that is nothing.
pub proof fn document_is_what_was_read(events: Seq<DjotEventModel>, opts: DjotImportOptions)
    requires
        between_blocks(djot_after(events, opts)),
    ensures
        ({
            let done = djot_after(events, opts).elements;
            let all = djot_elements(events, opts);
            &&& done.len() > 0 ==> all == done
            &&& done.len() == 0 ==> {
                &&& all.len() == 1
                &&& all[0] matches ElementModel::Block(block) && {
                    &&& block.spans.len() == 1
                    &&& block.spans[0].text.len() == 0
                    &&& block.heading_level is None
                    &&& is_prose(block)
                    &&& block.blockquote_depth == 0
                    &&& belongs_to(block, None)
                    &&& has_no_style(block)
                }
            }
        }),
{
}

/// What the document model cannot hold is dropped: math, raw text, description lists,
/// captions and link definitions, and nothing else.
pub proof fn only_these_are_dropped(tag: DjotTag)
    ensures
        is_dropped(tag) <==> match tag {
            DjotTag::Math | DjotTag::RawBlock | DjotTag::RawInline => true,
            DjotTag::DescriptionList | DjotTag::DescriptionTerm => true,
            DjotTag::DescriptionDetails | DjotTag::Caption | DjotTag::LinkDefinition => true,
            _ => false,
        },
{
}

/// A code block is one block: its text without the newline at its end, in the language it
/// names, if it names one.
pub proof fn code_block_is_its_text(
    before: Seq<DjotEventModel>,
    language: Seq<char>,
    text: Seq<char>,
    opts: DjotImportOptions,
)
    requires
        can_be_told(before),
        between_blocks(djot_after(before, opts)),
    ensures
        ({
            let done = djot_after(before, opts).elements;
            let events = before + (seq![
                DjotEventModel::Start(DjotTag::CodeBlock, language, Seq::empty()),
            ] + seq![DjotEventModel::Str(text)] + seq![DjotEventModel::End(DjotTag::CodeBlock)]);
            let all = djot_elements(events, opts);
            &&& all.len() == done.len() + 1
            &&& all.take(done.len() as int) == done
            &&& all.last() matches ElementModel::Block(block) && {
                &&& block.spans.len() == 1
                &&& block.spans[0].text == if text.len() > 0 && text.last() == '\n' {
                    text.drop_last()
                } else {
                    text
                }
                &&& !block.spans[0].bold && !block.spans[0].italic && !block.spans[0].code
                &&& block.is_code_block
                &&& block.code_language == if language.len() > 0 {
                    Some(language)
                } else {
                    None
                }
                &&& block.heading_level is None
                &&& block.blockquote_depth == open_quotes(before)
                &&& belongs_to(block, None)
                &&& has_no_style(block)
            }
            &&& between_blocks(djot_after(events, opts))
        }),
{
    let first = DjotEventModel::Start(DjotTag::CodeBlock, language, Seq::empty());
    let middle = DjotEventModel::Str(text);
    let last = DjotEventModel::End(DjotTag::CodeBlock);
    let s = djot_after(before, opts);
    reader_knows(before, opts);
    let events = seq![first] + seq![middle] + seq![last];
    runs_on(before, events, opts);
    run_around(s, first, seq![middle], last, opts);
    let begun = djot_step(s, first, opts);
    run_one(begun, middle, opts);
    let full = djot_step(begun, middle, opts);
    let next = djot_step(full, last, opts);
    let all = djot_elements(before + events, opts);
    assert(all == next.elements);
    assert(all.take(s.elements.len() as int) =~= s.elements);
}

// ─── Tables ──────────────────────────────────────────────────────────

/// The events of the cells of a row.
pub open spec fn cells_events(cells: Seq<Seq<DjotEventModel>>) -> Seq<DjotEventModel>
    decreases cells.len(),
{
    if cells.len() == 0 {
        Seq::empty()
    } else {
        cells_events(cells.drop_last()) + (seq![
            DjotEventModel::Start(DjotTag::TableCell, Seq::empty(), Seq::empty()),
        ] + cells.last() + seq![DjotEventModel::End(DjotTag::TableCell)])
    }
}

/// The events of rows, each with whether it is a head and with its cells.
pub open spec fn rows_events(rows: Seq<(bool, Seq<Seq<DjotEventModel>>)>) -> Seq<DjotEventModel>
    decreases rows.len(),
{
    if rows.len() == 0 {
        Seq::empty()
    } else {
        let head = rows.last().0;
        rows_events(rows.drop_last()) + (seq![
            DjotEventModel::Start(DjotTag::TableRow(head), Seq::empty(), Seq::empty()),
        ] + cells_events(rows.last().1) + seq![DjotEventModel::End(DjotTag::TableRow(head))])
    }
}

/// How many of some rows are heads.
pub open spec fn heads_among(rows: Seq<(bool, Seq<Seq<DjotEventModel>>)>) -> int
    decreases rows.len(),
{
    if rows.len() == 0 {
        0
    } else {
        heads_among(rows.drop_last()) + if rows.last().0 {
            1int
        } else {
            0int
        }
    }
}

/// Whether cells are lines in which nothing is left open.
pub open spec fn are_cells(cells: Seq<Seq<DjotEventModel>>) -> bool {
    forall|i: int| 0 <= i < cells.len() ==> is_line(#[trigger] cells[i]) && is_closed(cells[i])
}

/// Whether the cells of rows are lines in which nothing is left open.
pub open spec fn are_rows(rows: Seq<(bool, Seq<Seq<DjotEventModel>>)>) -> bool {
    forall|i: int| 0 <= i < rows.len() ==> are_cells((#[trigger] rows[i]).1)
}

proof fn closed_line_undresses(s: DjotState, line: Seq<DjotEventModel>)
    requires
        undressed(s),
        is_closed(line),
    ensures
        marks_on(line) == s.marks,
        picture_on(line) == s.image,
{
    assert(marks_on(line) =~= s.marks);
}

proof fn cells_run(s: DjotState, cells: Seq<Seq<DjotEventModel>>, opts: DjotImportOptions)
    requires
        undressed(s),
        !s.table.in_cell,
        s.table.cell.len() == 0,
        are_cells(cells),
    ensures
        run(s, cells_events(cells), opts) == (DjotState {
            table: OpenTable {
                row: s.table.row + cells.map_values(|line: Seq<DjotEventModel>| pieces(line)),
                ..s.table
            },
            ..s
        }),
    decreases cells.len(),
{
    let f = |line: Seq<DjotEventModel>| pieces(line);
    if cells.len() == 0 {
        assert(s.table.row + cells.map_values(f) =~= s.table.row);
    } else {
        let rest = cells.drop_last();
        let line = cells.last();
        assert(are_cells(rest)) by {
            assert forall|i: int| 0 <= i < rest.len() implies is_line(#[trigger] rest[i])
                && is_closed(rest[i]) by {
                assert(rest[i] == cells[i]);
            }
        }
        assert(line == cells[cells.len() - 1]);
        cells_run(s, rest, opts);
        let first = DjotEventModel::Start(DjotTag::TableCell, Seq::empty(), Seq::empty());
        let last = DjotEventModel::End(DjotTag::TableCell);
        let now = run(s, cells_events(rest), opts);
        run_concat(s, cells_events(rest), seq![first] + line + seq![last], opts);
        run_around(now, first, line, last, opts);
        let begun = djot_step(now, first, opts);
        line_runs(begun, line, opts);
        closed_line_undresses(begun, line);
        let full = run(begun, line, opts);
        assert(full.table.cell =~= pieces(line));
        let next = djot_step(full, last, opts);
        assert(s.table.row + cells.map_values(f) =~= (s.table.row + rest.map_values(f)).push(
            pieces(line),
        ));
        assert(next.table =~= OpenTable {
            row: s.table.row + cells.map_values(f),
            ..s.table
        });
        assert(next =~= DjotState { table: next.table, ..s });
    }
}

/// The cells of rows as their pieces.
pub open spec fn rows_pieces(rows: Seq<(bool, Seq<Seq<DjotEventModel>>)>) -> Seq<
    Seq<Seq<SpanModel>>,
> {
    rows.map_values(
        |row: (bool, Seq<Seq<DjotEventModel>>)|
            row.1.map_values(|line: Seq<DjotEventModel>| pieces(line)),
    )
}

proof fn rows_run(
    s: DjotState,
    rows: Seq<(bool, Seq<Seq<DjotEventModel>>)>,
    opts: DjotImportOptions,
)
    requires
        undressed(s),
        !s.table.in_cell,
        s.table.cell.len() == 0,
        s.table.row.len() == 0,
        s.table.rows.len() == 0,
        s.table.header_rows == 0,
        are_rows(rows),
        rows.len() <= usize::MAX,
    ensures
        ({
            let next = run(s, rows_events(rows), opts);
            &&& next.table.rows == rows_pieces(rows)
            &&& next.table.header_rows == heads_among(rows)
            &&& 0 <= heads_among(rows) <= rows.len()
            &&& next.table.row.len() == 0
            &&& next.table.cell.len() == 0
            &&& !next.table.in_cell
            &&& next == DjotState { table: next.table, ..s }
        }),
    decreases rows.len(),
{
    let f = |line: Seq<DjotEventModel>| pieces(line);
    if rows.len() == 0 {
        assert(rows_pieces(rows) =~= Seq::empty());
        assert(s =~= DjotState { table: s.table, ..s });
    } else {
        let rest = rows.drop_last();
        let (head, cells) = rows.last();
        assert(are_rows(rest)) by {
            assert forall|i: int| 0 <= i < rest.len() implies are_cells(
                (#[trigger] rest[i]).1,
            ) by {
                assert(rest[i] == rows[i]);
            }
        }
        assert(are_cells(rows[rows.len() - 1].1));
        rows_run(s, rest, opts);
        let now = run(s, rows_events(rest), opts);
        let first = DjotEventModel::Start(DjotTag::TableRow(head), Seq::empty(), Seq::empty());
        let last = DjotEventModel::End(DjotTag::TableRow(head));
        run_concat(s, rows_events(rest), seq![first] + cells_events(cells) + seq![last], opts);
        run_around(now, first, cells_events(cells), last, opts);
        let begun = djot_step(now, first, opts);
        cells_run(begun, cells, opts);
        let full = run(begun, cells_events(cells), opts);
        assert(full.table.row =~= cells.map_values(f));
        let next = djot_step(full, last, opts);
        assert(rows_pieces(rows) =~= rows_pieces(rest).push(cells.map_values(f)));
        assert(next =~= DjotState { table: next.table, ..s });
    }
}

/// A table is one element behind what was read before: row by row the pieces of its
/// cells, with as many head rows as are marked so, in the blockquotes that are open.
pub proof fn table_is_its_cells(
    before: Seq<DjotEventModel>,
    rows: Seq<(bool, Seq<Seq<DjotEventModel>>)>,
    opts: DjotImportOptions,
)
    requires
        can_be_told(before),
        between_blocks(djot_after(before, opts)),
        are_rows(rows),
        rows.len() <= usize::MAX,
    ensures
        ({
            let done = djot_after(before, opts).elements;
            let events = before + (seq![
                DjotEventModel::Start(DjotTag::Table, Seq::empty(), Seq::empty()),
            ] + rows_events(rows) + seq![DjotEventModel::End(DjotTag::Table)]);
            &&& djot_elements(events, opts) == done.push(
                ElementModel::Table(
                    TableModel {
                        header_rows: heads_among(rows),
                        rows: rows_pieces(rows),
                        blockquote_depth: open_quotes(before),
                    },
                ),
            )
            &&& between_blocks(djot_after(events, opts))
        }),
{
    let first = DjotEventModel::Start(DjotTag::Table, Seq::empty(), Seq::empty());
    let last = DjotEventModel::End(DjotTag::Table);
    let s = djot_after(before, opts);
    reader_knows(before, opts);
    runs_on(before, seq![first] + rows_events(rows) + seq![last], opts);
    run_around(s, first, rows_events(rows), last, opts);
    let begun = djot_step(s, first, opts);
    rows_run(begun, rows, opts);
    let next = djot_step(run(begun, rows_events(rows), opts), last, opts);
    assert(djot_elements(before + (seq![first] + rows_events(rows) + seq![last]), opts)
        == next.elements);
}

/// A hard break in a cell is a space.
pub proof fn hard_break_in_a_cell_is_a_space(
    before: Seq<DjotEventModel>,
    opts: DjotImportOptions,
)
    requires
        djot_after(before, opts).skip == 0,
        djot_after(before, opts).table.in_cell,
    ensures
        djot_after(before.push(DjotEventModel::Atom(DjotAtom::Hardbreak)), opts) == djot_after(
            before.push(DjotEventModel::Str(seq![' '])),
            opts,
        ),
{
    let brk = DjotEventModel::Atom(DjotAtom::Hardbreak);
    let space = DjotEventModel::Str(seq![' ']);
    assert(before.push(brk).drop_last() =~= before);
    assert(before.push(space).drop_last() =~= before);
}

// ─── Footnotes ───────────────────────────────────────────────────────

/// Whether no footnote begins or ends among events.
pub open spec fn no_footnotes(events: Seq<DjotEventModel>) -> bool {
    forall|i: int|
        0 <= i < events.len() ==> {
            &&& !(#[trigger] events[i] matches DjotEventModel::Start(DjotTag::Footnote, _, _))
            &&& !(events[i] matches DjotEventModel::End(DjotTag::Footnote))
        }
}

/// One event adds an element at the end, or none, as long as no footnote ends with it.
proof fn one_element_at_most(s: DjotState, event: DjotEventModel, opts: DjotImportOptions)
    requires
        !(event matches DjotEventModel::Start(DjotTag::Footnote, _, _)),
        !(event matches DjotEventModel::End(DjotTag::Footnote)),
    ensures
        djot_step(s, event, opts).footnote == s.footnote,
        djot_step(s, event, opts).elements == s.elements || djot_step(s, event, opts).elements
            == s.elements.push(djot_step(s, event, opts).elements.last()),
{
    match event {
        DjotEventModel::Start(tag, text, attrs) => {
            if tag is ListItem || tag is TaskListItem {
            } else {
                assert(djot_step(s, event, opts).elements == s.elements);
            }
        },
        DjotEventModel::End(tag) => {},
        DjotEventModel::Str(text) => {
            assert(djot_step(s, event, opts).elements == s.elements);
        },
        DjotEventModel::FootnoteReference(label) => {
            assert(djot_step(s, event, opts).elements == s.elements);
        },
        DjotEventModel::Atom(atom) => {
            if atom is Hardbreak {
            } else {
                assert(djot_step(s, event, opts).elements == s.elements);
            }
        },
    }
}

/// What was read stays where it is, in front of what is read behind it, as long as no
/// footnote ends.
proof fn elements_stay(s: DjotState, events: Seq<DjotEventModel>, opts: DjotImportOptions)
    requires
        no_footnotes(events),
    ensures
        run(s, events, opts).footnote == s.footnote,
        s.elements.len() <= run(s, events, opts).elements.len(),
        run(s, events, opts).elements.take(s.elements.len() as int) == s.elements,
    decreases events.len(),
{
    if events.len() == 0 {
        assert(s.elements.take(s.elements.len() as int) =~= s.elements);
    } else {
        let rest = events.drop_last();
        assert(no_footnotes(rest)) by {
            assert forall|i: int| 0 <= i < rest.len() implies {
                &&& !(#[trigger] rest[i] matches DjotEventModel::Start(DjotTag::Footnote, _, _))
                &&& !(rest[i] matches DjotEventModel::End(DjotTag::Footnote))
            } by {
                assert(rest[i] == events[i]);
            }
        }
        elements_stay(s, rest, opts);
        let now = run(s, rest, opts);
        let event = events.last();
        assert(event == events[events.len() - 1]);
        one_element_at_most(now, event, opts);
        assert(djot_step(now, event, opts).elements.take(s.elements.len() as int)
            =~= now.elements.take(s.elements.len() as int));
    }
}

proof fn blocks_are_among(blocks: Seq<BlockModel>)
    ensures
        blocks_among(blocks.map_values(|block: BlockModel| ElementModel::Block(block))) == blocks,
    decreases blocks.len(),
{
    let f = |block: BlockModel| ElementModel::Block(block);
    if blocks.len() > 0 {
        blocks_are_among(blocks.drop_last());
        assert(blocks.map_values(f).drop_last() =~= blocks.drop_last().map_values(f));
        assert(blocks.drop_last().push(blocks.last()) =~= blocks);
    } else {
        assert(blocks_among(blocks.map_values(f)) =~= blocks);
    }
}

/// A footnote is one element behind what was read before it: its label, and the blocks
/// that were read in it, which are then nowhere else.
pub proof fn footnote_is_its_blocks(
    before: Seq<DjotEventModel>,
    label: Seq<char>,
    attrs: Seq<(Seq<char>, Seq<char>)>,
    body: Seq<DjotEventModel>,
    blocks: Seq<BlockModel>,
    opts: DjotImportOptions,
)
    requires
        between_blocks(djot_after(before, opts)),
        no_footnotes(body),
        ({
            let begun = before.push(DjotEventModel::Start(DjotTag::Footnote, label, attrs));
            &&& between_blocks(djot_after(begun + body, opts))
            &&& djot_after(begun + body, opts).elements == djot_after(before, opts).elements
                + blocks.map_values(|block: BlockModel| ElementModel::Block(block))
        }),
    ensures
        ({
            let begun = before.push(DjotEventModel::Start(DjotTag::Footnote, label, attrs));
            let events = (begun + body).push(DjotEventModel::End(DjotTag::Footnote));
            &&& djot_elements(events, opts) == djot_after(before, opts).elements.push(
                ElementModel::FootnoteDefinition { label, blocks },
            )
            &&& between_blocks(djot_after(events, opts))
        }),
{
    let first = DjotEventModel::Start(DjotTag::Footnote, label, attrs);
    let last = DjotEventModel::End(DjotTag::Footnote);
    let f = |block: BlockModel| ElementModel::Block(block);
    let begun = before.push(first);
    let done = djot_after(before, opts).elements;
    assert(begun.drop_last() =~= before);
    runs_on(begun, body, opts);
    elements_stay(djot_after(begun, opts), body, opts);
    let s = djot_after(begun + body, opts);
    assert(s.footnote == Some((label, done.len() as int)));
    let events = (begun + body).push(last);
    assert(events.drop_last() =~= begun + body);
    assert(s.elements.take(done.len() as int) =~= done);
    assert(s.elements.skip(done.len() as int) =~= blocks.map_values(f));
    blocks_are_among(blocks);
    let next = djot_after(events, opts);
    assert(djot_elements(events, opts) == next.elements);
}

/// A line that is open where a footnote begins is a block before it, of the list item that is
/// open where there is one.
pub proof fn footnote_ends_the_line_before(
    before: Seq<DjotEventModel>,
    line: Seq<DjotEventModel>,
    label: Seq<char>,
    attrs: Seq<(Seq<char>, Seq<char>)>,
    opts: DjotImportOptions,
)
    requires
        can_be_told(before),
        between_blocks(djot_after(before, opts)),
        is_line(line),
        pieces(line).len() > 0,
    ensures
        ({
            let done = djot_after(before, opts).elements;
            let events = (before + line).push(
                DjotEventModel::Start(DjotTag::Footnote, label, attrs),
            );
            let all = djot_after(events, opts).elements;
            &&& djot_after(events, opts).spans.len() == 0
            &&& all.len() == done.len() + 1
            &&& all.take(done.len() as int) == done
            &&& all.last() matches ElementModel::Block(block) && {
                &&& block.spans == pieces(line)
                &&& block.heading_level is None
                &&& is_prose(block)
                &&& block.blockquote_depth == open_quotes(before)
                &&& belongs_to(block, open_item(before))
                &&& has_no_style(block)
            }
        }),
{
    let event = DjotEventModel::Start(DjotTag::Footnote, label, attrs);
    let s = djot_after(before, opts);
    reader_knows(before, opts);
    runs_on(before, line, opts);
    line_runs(s, line, opts);
    let full = run(s, line, opts);
    assert(full.spans =~= pieces(line));
    let events = (before + line).push(event);
    assert(events.drop_last() =~= before + line);
    let all = djot_after(events, opts).elements;
    assert(all.take(s.elements.len() as int) =~= s.elements);
    if let Some(item) = open_item(before) {
        item_looks(all.last()->Block_0, item.list);
    }
}

/// A line that is open where a footnote ends is a block of the footnote.
pub proof fn footnote_takes_the_line_in_it(
    before: Seq<DjotEventModel>,
    label: Seq<char>,
    attrs: Seq<(Seq<char>, Seq<char>)>,
    line: Seq<DjotEventModel>,
    opts: DjotImportOptions,
)
    requires
        can_be_told(before),
        between_blocks(djot_after(before, opts)),
        is_line(line),
        pieces(line).len() > 0,
    ensures
        ({
            let done = djot_after(before, opts).elements;
            let events = before + (seq![DjotEventModel::Start(DjotTag::Footnote, label, attrs)]
                + line + seq![DjotEventModel::End(DjotTag::Footnote)]);
            let all = djot_elements(events, opts);
            &&& all.len() == done.len() + 1
            &&& all.take(done.len() as int) == done
            &&& all.last() is FootnoteDefinition
            &&& all.last()->label == label
            &&& all.last()->blocks.len() == 1
            &&& all.last()->blocks[0].spans == pieces(line)
            &&& is_prose(all.last()->blocks[0])
            &&& belongs_to(all.last()->blocks[0], open_item(before))
            &&& has_no_style(all.last()->blocks[0])
        }),
{
    let first = DjotEventModel::Start(DjotTag::Footnote, label, attrs);
    let last = DjotEventModel::End(DjotTag::Footnote);
    let s = djot_after(before, opts);
    reader_knows(before, opts);
    runs_on(before, seq![first] + line + seq![last], opts);
    run_around(s, first, line, last, opts);
    let begun = djot_step(s, first, opts);
    line_runs(begun, line, opts);
    let full = run(begun, line, opts);
    assert(full.spans =~= pieces(line));
    let next = djot_step(full, last, opts);
    let block = item_block(full, no_style());
    let flushed = s.elements.push(ElementModel::Block(block));
    assert(flushed.take(s.elements.len() as int) =~= s.elements);
    assert(flushed.skip(s.elements.len() as int) =~= seq![block].map_values(
        |block: BlockModel| ElementModel::Block(block),
    ));
    blocks_are_among(seq![block]);
    let all = djot_elements(before + (seq![first] + line + seq![last]), opts);
    assert(all == next.elements);
    assert(all.take(s.elements.len() as int) =~= s.elements);
    if let Some(item) = open_item(before) {
        item_looks(block, item.list);
    }
}

} // verus!
