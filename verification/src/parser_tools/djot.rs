//! The Djot reader.
use jotdown::{Container, Event, ListKind, OrderedListNumbering, OrderedListStyle, Parser};
use vstd::prelude::*;

use crate::chars::{number, parse_number, part, trim, trimmed};
use crate::entities::{Alignment, ListStyle, MarkerType, SemanticRole, TextDirection};
use crate::models::{group_deep_view, take_vec};
use crate::parser_tools::content_parser::{
    empty_span, lift_footnote, lift_into_footnote, one_more, or_empty_paragraph, paragraph,
    strip_final_newline, without_final_newline, BlockModel, ElementModel, ParsedBlock,
    ParsedElement, ParsedImage, ParsedSpan, ParsedTable, ParsedTableCell, PictureModel, SpanModel,
    TableModel,
};
use crate::parser_tools::djot_depth::{find_line_end, is_too_deep, larger, too_deep};
use crate::parser_tools::djot_descent::{goes_too_far, source_lines, too_far};
use crate::parser_tools::djot_line::{
    ends_or_white, find_run_end, front_of, is_ascii_white, read_front, run_end,
};
use crate::parser_tools::djot_options::DjotImportOptions;
use crate::parser_tools::djot_plain::{
    escaped_lines, kept_texts, plain_lines, spelled_paragraphs, tells_no_more, tells_prose,
    told_paragraphs_read_as_lines, told_text_is_not_longer, MarkedLine,
};
use crate::text::{same_text, to_chars};

verus! {

broadcast use group_deep_view;

/// How the numbers of an ordered list are written.
#[derive(Clone, Copy, Debug, PartialEq, Eq, Structural)]
pub enum DjotNumbering {
    Decimal,
    AlphaLower,
    AlphaUpper,
    RomanLower,
    RomanUpper,
}

/// What stands around the numbers of an ordered list.
#[derive(Clone, Copy, Debug, PartialEq, Eq, Structural)]
pub enum DjotDelimiter {
    Period,
    Paren,
    ParenParen,
}

/// How a list is marked.
#[derive(Clone, Copy, Debug, PartialEq, Eq, Structural)]
pub enum DjotList {
    /// A bullet or task list, by its bullet character.
    Bullet(char),
    Ordered(DjotNumbering, DjotDelimiter),
}

/// The construct that a start or an end event of Djot speaks of.
#[derive(Clone, Copy, Debug, PartialEq, Eq, Structural)]
pub enum DjotTag {
    Document,
    Section,
    Div,
    Blockquote,
    List(DjotList),
    ListItem,
    /// `true` for a checked item.
    TaskListItem(bool),
    /// The level of the heading.
    Heading(u16),
    Paragraph,
    CodeBlock,
    Table,
    /// `true` for a header row.
    TableRow(bool),
    TableCell,
    Footnote,
    DescriptionList,
    DescriptionDetails,
    DescriptionTerm,
    Caption,
    LinkDefinition,
    RawBlock,
    Strong,
    Emphasis,
    Verbatim,
    Superscript,
    Subscript,
    Insert,
    Delete,
    Mark,
    Span,
    Link,
    Image,
    Math,
    RawInline,
}

/// An event of Djot without content of its own.
#[derive(Clone, Copy, Debug, PartialEq, Eq, Structural)]
pub enum DjotAtom {
    LeftSingleQuote,
    RightSingleQuote,
    LeftDoubleQuote,
    RightDoubleQuote,
    Ellipsis,
    EnDash,
    EmDash,
    NonBreakingSpace,
    Softbreak,
    Hardbreak,
    /// A symbol, an escape, a blank line, a thematic break, or attributes that
    /// belong to nothing.
    Other,
}

/// One event of a Djot document, in document order.
#[derive(Debug, PartialEq, Eq)]
pub enum DjotEvent {
    /// A construct begins. The text is the target of a link or an image, the
    /// label of a footnote, or the language of a code block; it is empty for
    /// everything else. The attributes are pairs of a key and a value, no key
    /// twice.
    Start(DjotTag, String, Vec<(String, String)>),
    End(DjotTag),
    Str(String),
    FootnoteReference(String),
    Atom(DjotAtom),
}

/// What a [`DjotEvent`] says.
pub enum DjotEventModel {
    Start(DjotTag, Seq<char>, Seq<(Seq<char>, Seq<char>)>),
    End(DjotTag),
    Str(Seq<char>),
    FootnoteReference(Seq<char>),
    Atom(DjotAtom),
}

impl DeepView for DjotEvent {
    type V = DjotEventModel;

    open spec fn deep_view(&self) -> DjotEventModel {
        match *self {
            DjotEvent::Start(tag, text, attrs) => DjotEventModel::Start(
                tag,
                text@,
                attrs.deep_view(),
            ),
            DjotEvent::End(tag) => DjotEventModel::End(tag),
            DjotEvent::Str(text) => DjotEventModel::Str(text@),
            DjotEvent::FootnoteReference(label) => DjotEventModel::FootnoteReference(label@),
            DjotEvent::Atom(atom) => DjotEventModel::Atom(atom),
        }
    }
}

// ─── Lists ───────────────────────────────────────────────────────────

/// The list style of a bullet character: `-` is a disc, `*` a circle, `+` a
/// square. No character of Djot's lists shares a style with another.
pub open spec fn bullet_style(bullet: char) -> ListStyle {
    if bullet == '*' {
        ListStyle::Circle
    } else if bullet == '+' {
        ListStyle::Square
    } else {
        ListStyle::Disc
    }
}

/// Map an unordered/task bullet marker to a `ListStyle`.
///
/// The mapping is a stable bijection (`-` and Disc, `*` and Circle, `+` and
/// Square) so the djot exporter can recover the exact bullet character for a
/// lossless round-trip.
fn djot_bullet_style(bullet: char) -> (style: ListStyle)
    ensures
        style == bullet_style(bullet),
{
    if bullet == '*' {
        ListStyle::Circle
    } else if bullet == '+' {
        ListStyle::Square
    } else {
        ListStyle::Disc
    }
}

/// The list style of a numbering.
pub open spec fn ordered_style(numbering: DjotNumbering) -> ListStyle {
    match numbering {
        DjotNumbering::Decimal => ListStyle::Decimal,
        DjotNumbering::AlphaLower => ListStyle::LowerAlpha,
        DjotNumbering::AlphaUpper => ListStyle::UpperAlpha,
        DjotNumbering::RomanLower => ListStyle::LowerRoman,
        DjotNumbering::RomanUpper => ListStyle::UpperRoman,
    }
}

/// Map an ordered-list numbering scheme to a `ListStyle`.
fn djot_ordered_style(numbering: DjotNumbering) -> (style: ListStyle)
    ensures
        style == ordered_style(numbering),
{
    match numbering {
        DjotNumbering::Decimal => ListStyle::Decimal,
        DjotNumbering::AlphaLower => ListStyle::LowerAlpha,
        DjotNumbering::AlphaUpper => ListStyle::UpperAlpha,
        DjotNumbering::RomanLower => ListStyle::LowerRoman,
        DjotNumbering::RomanUpper => ListStyle::UpperRoman,
    }
}

/// What stands before and behind the numbers of an ordered list.
pub open spec fn ordered_affixes(delimiter: DjotDelimiter) -> (Seq<char>, Seq<char>) {
    match delimiter {
        DjotDelimiter::Period => (Seq::empty(), "."@),
        DjotDelimiter::Paren => (Seq::empty(), ")"@),
        DjotDelimiter::ParenParen => ("("@, ")"@),
    }
}

/// Map an ordered-list delimiter to the `(prefix, suffix)` affixes stored on the
/// list (`1.` has `("", ".")`, `1)` has `("", ")")`, `(1)` has `("(", ")")`).
fn djot_ordered_affixes(delimiter: DjotDelimiter) -> (affixes: (String, String))
    ensures
        affixes.0@ == ordered_affixes(delimiter).0,
        affixes.1@ == ordered_affixes(delimiter).1,
{
    let affixes = match delimiter {
        DjotDelimiter::Period => (String::new(), ".".to_string()),
        DjotDelimiter::Paren => (String::new(), ")".to_string()),
        DjotDelimiter::ParenParen => ("(".to_string(), ")".to_string()),
    };
    assert(affixes.0@ =~= ordered_affixes(delimiter).0);
    affixes
}

/// The style and the affixes of a list.
#[verifier::ext_equal]
pub struct ListModel {
    pub style: ListStyle,
    pub prefix: Seq<char>,
    pub suffix: Seq<char>,
}

/// The style and the affixes of a list.
struct ListKeeper {
    style: ListStyle,
    prefix: String,
    suffix: String,
}

impl DeepView for ListKeeper {
    type V = ListModel;

    closed spec fn deep_view(&self) -> ListModel {
        ListModel { style: self.style, prefix: self.prefix@, suffix: self.suffix@ }
    }
}

/// How a list is kept.
pub open spec fn list_model(list: DjotList) -> ListModel {
    match list {
        DjotList::Bullet(bullet) => ListModel {
            style: bullet_style(bullet),
            prefix: Seq::empty(),
            suffix: Seq::empty(),
        },
        DjotList::Ordered(numbering, delimiter) => ListModel {
            style: ordered_style(numbering),
            prefix: ordered_affixes(delimiter).0,
            suffix: ordered_affixes(delimiter).1,
        },
    }
}

fn keep_list(list: DjotList) -> (kept: ListKeeper)
    ensures
        kept.deep_view() == list_model(list),
{
    let kept = match list {
        DjotList::Bullet(bullet) => ListKeeper {
            style: djot_bullet_style(bullet),
            prefix: String::new(),
            suffix: String::new(),
        },
        DjotList::Ordered(numbering, delimiter) => {
            let affixes = djot_ordered_affixes(delimiter);
            ListKeeper {
                style: djot_ordered_style(numbering),
                prefix: affixes.0,
                suffix: affixes.1,
            }
        },
    };
    assert(kept.deep_view() =~= list_model(list));
    kept
}

// ─── Block attributes ────────────────────────────────────────────────

/// The optional block-level style of a Djot block.
#[verifier::ext_equal]
pub struct StyleModel {
    pub alignment: Option<Alignment>,
    pub line_height: Option<i64>,
    pub non_breakable_lines: Option<bool>,
    pub page_break_before: Option<bool>,
    pub direction: Option<TextDirection>,
    pub background_color: Option<Seq<char>>,
    pub top_margin: Option<i64>,
    pub text_indent: Option<i64>,
    pub semantic_role: Option<SemanticRole>,
}

/// The style that says nothing.
pub open spec fn no_style() -> StyleModel {
    StyleModel {
        alignment: None,
        line_height: None,
        non_breakable_lines: None,
        page_break_before: None,
        direction: None,
        background_color: None,
        top_margin: None,
        text_indent: None,
        semantic_role: None,
    }
}

/// Optional block-level style attributes carried on a djot block through its
/// `{key=value}` block attributes. All `None` when the block has no such
/// attributes (or they were filtered out by [`DjotImportOptions`]).
#[derive(Debug)]
pub struct DjotBlockStyle {
    pub alignment: Option<Alignment>,
    pub line_height: Option<i64>,
    pub non_breakable_lines: Option<bool>,
    pub page_break_before: Option<bool>,
    pub direction: Option<TextDirection>,
    pub background_color: Option<String>,
    pub top_margin: Option<i64>,
    pub text_indent: Option<i64>,
    pub semantic_role: Option<SemanticRole>,
}

impl DeepView for DjotBlockStyle {
    type V = StyleModel;

    open spec fn deep_view(&self) -> StyleModel {
        StyleModel {
            alignment: self.alignment,
            line_height: self.line_height,
            non_breakable_lines: self.non_breakable_lines,
            page_break_before: self.page_break_before,
            direction: self.direction,
            background_color: self.background_color.deep_view(),
            top_margin: self.top_margin,
            text_indent: self.text_indent,
            semantic_role: self.semantic_role,
        }
    }
}

impl Default for DjotBlockStyle {
    fn default() -> (style: Self)
        ensures
            style.deep_view() == no_style(),
    {
        DjotBlockStyle {
            alignment: None,
            line_height: None,
            non_breakable_lines: None,
            page_break_before: None,
            direction: None,
            background_color: None,
            top_margin: None,
            text_indent: None,
            semantic_role: None,
        }
    }
}

impl Clone for DjotBlockStyle {
    fn clone(&self) -> (copy: Self)
        ensures
            copy.deep_view() == self.deep_view(),
    {
        DjotBlockStyle {
            alignment: self.alignment,
            line_height: self.line_height,
            non_breakable_lines: self.non_breakable_lines,
            page_break_before: self.page_break_before,
            direction: self.direction,
            background_color: self.background_color.clone(),
            top_margin: self.top_margin,
            text_indent: self.text_indent,
            semantic_role: self.semantic_role,
        }
    }
}

/// The second value where there is one, else the first.
pub open spec fn overlay<T>(under: Option<T>, over: Option<T>) -> Option<T> {
    if over is Some {
        over
    } else {
        under
    }
}

/// A style with all that another one says laid over it.
pub open spec fn overlaid(under: StyleModel, over: StyleModel) -> StyleModel {
    StyleModel {
        alignment: overlay(under.alignment, over.alignment),
        line_height: overlay(under.line_height, over.line_height),
        non_breakable_lines: overlay(under.non_breakable_lines, over.non_breakable_lines),
        page_break_before: overlay(under.page_break_before, over.page_break_before),
        direction: overlay(under.direction, over.direction),
        background_color: overlay(under.background_color, over.background_color),
        top_margin: overlay(under.top_margin, over.top_margin),
        text_indent: overlay(under.text_indent, over.text_indent),
        semantic_role: overlay(under.semantic_role, over.semantic_role),
    }
}

impl DjotBlockStyle {
    /// Overlay the `Some` fields of `other` onto `self`, leaving `self`'s
    /// existing values for any field `other` does not set. Used to combine a
    /// heading's enclosing section's attributes with any on the heading itself.
    pub fn merge_from(&mut self, other: DjotBlockStyle)
        ensures
            final(self).deep_view() == overlaid(old(self).deep_view(), other.deep_view()),
    {
        if other.alignment.is_some() {
            self.alignment = other.alignment;
        }
        if other.line_height.is_some() {
            self.line_height = other.line_height;
        }
        if other.non_breakable_lines.is_some() {
            self.non_breakable_lines = other.non_breakable_lines;
        }
        if other.page_break_before.is_some() {
            self.page_break_before = other.page_break_before;
        }
        if other.direction.is_some() {
            self.direction = other.direction;
        }
        if other.background_color.is_some() {
            self.background_color = other.background_color;
        }
        if other.top_margin.is_some() {
            self.top_margin = other.top_margin;
        }
        if other.text_indent.is_some() {
            self.text_indent = other.text_indent;
        }
        if other.semantic_role.is_some() {
            self.semantic_role = other.semantic_role;
        }
    }
}

/// The value of a key, from the `i`-th attribute on.
pub open spec fn attr_from(attrs: Seq<(Seq<char>, Seq<char>)>, key: Seq<char>, i: int) -> Option<
    Seq<char>,
>
    decreases attrs.len() - i,
{
    if i < 0 || i >= attrs.len() {
        None
    } else if attrs[i].0 == key {
        Some(attrs[i].1)
    } else {
        attr_from(attrs, key, i + 1)
    }
}

/// The value of a key among attributes.
pub open spec fn attr_value(attrs: Seq<(Seq<char>, Seq<char>)>, key: Seq<char>) -> Option<
    Seq<char>,
> {
    attr_from(attrs, key, 0)
}

/// The value of a key among attributes, where it is asked for.
pub open spec fn wanted_attr(
    wanted: bool,
    attrs: Seq<(Seq<char>, Seq<char>)>,
    key: Seq<char>,
) -> Option<Seq<char>> {
    if wanted {
        attr_value(attrs, key)
    } else {
        None
    }
}

/// The value of a key among attributes, where it is asked for.
fn find_attr<'a>(wanted: bool, attrs: &'a Vec<(String, String)>, key: &str) -> (value: Option<
    &'a String,
>)
    ensures
        value.deep_view() == wanted_attr(wanted, attrs.deep_view(), key@),
{
    if !wanted {
        return None;
    }
    let ghost all = attrs.deep_view();
    for i in 0..attrs.len()
        invariant
            wanted,
            all == attrs.deep_view(),
            attr_from(all, key@, 0) == attr_from(all, key@, i as int),
    {
        assert(all[i as int] == attrs[i as int].deep_view());
        if same_text(attrs[i].0.as_str(), key) {
            return Some(&attrs[i].1);
        }
    }
    None
}

/// The alignment that a word stands for.
pub open spec fn alignment_word(word: Seq<char>) -> Option<Alignment> {
    if word == "left"@ {
        Some(Alignment::Left)
    } else if word == "right"@ {
        Some(Alignment::Right)
    } else if word == "center"@ {
        Some(Alignment::Center)
    } else if word == "justify"@ {
        Some(Alignment::Justify)
    } else {
        None
    }
}

/// The direction that a word stands for.
pub open spec fn direction_word(word: Seq<char>) -> Option<TextDirection> {
    if word == "ltr"@ {
        Some(TextDirection::LeftToRight)
    } else if word == "rtl"@ {
        Some(TextDirection::RightToLeft)
    } else {
        None
    }
}

/// The truth value that a word stands for.
pub open spec fn bool_word(word: Seq<char>) -> Option<bool> {
    if word == "true"@ {
        Some(true)
    } else if word == "false"@ {
        Some(false)
    } else {
        None
    }
}

/// The role that a word stands for. An unknown role is dropped, not guessed at.
pub open spec fn role_word(word: Seq<char>) -> Option<SemanticRole> {
    if word == "epigraph"@ {
        Some(SemanticRole::Epigraph)
    } else {
        None
    }
}

/// What a word that may be missing stands for.
pub open spec fn read_word<T>(word: Option<Seq<char>>, read: spec_fn(Seq<char>) -> Option<T>) -> Option<
    T,
> {
    match word {
        Some(word) => read(word),
        None => None,
    }
}

/// The style that block attributes give under import options. A value that is
/// not recognised gives nothing.
pub open spec fn attrs_style(
    attrs: Seq<(Seq<char>, Seq<char>)>,
    opts: DjotImportOptions,
) -> StyleModel {
    StyleModel {
        alignment: read_word(
            wanted_attr(opts.alignment, attrs, "alignment"@),
            |w: Seq<char>| alignment_word(w),
        ),
        line_height: read_word(
            wanted_attr(opts.line_height, attrs, "line_height"@),
            |w: Seq<char>| number(w),
        ),
        non_breakable_lines: read_word(
            wanted_attr(opts.non_breakable_lines, attrs, "non_breakable_lines"@),
            |w: Seq<char>| bool_word(w),
        ),
        page_break_before: read_word(
            wanted_attr(opts.page_break_before, attrs, "page_break_before"@),
            |w: Seq<char>| bool_word(w),
        ),
        direction: read_word(
            wanted_attr(opts.direction, attrs, "direction"@),
            |w: Seq<char>| direction_word(w),
        ),
        background_color: wanted_attr(opts.background_color, attrs, "background_color"@),
        top_margin: read_word(
            wanted_attr(opts.top_margin, attrs, "top_margin"@),
            |w: Seq<char>| number(w),
        ),
        text_indent: read_word(
            wanted_attr(opts.text_indent, attrs, "text_indent"@),
            |w: Seq<char>| number(w),
        ),
        semantic_role: read_word(
            wanted_attr(opts.semantic_role, attrs, "semantic_role"@),
            |w: Seq<char>| role_word(w),
        ),
    }
}

/// The number that a value spells, if it is there and spells one.
fn number_value(value: Option<&String>) -> (parsed: Option<i64>)
    ensures
        parsed == read_word(value.deep_view(), |w: Seq<char>| number(w)),
{
    match value {
        Some(v) => parse_number(to_chars(v.as_str()).as_slice()),
        None => None,
    }
}

/// The truth value that a value spells, if it is there and spells one.
fn bool_value(value: Option<&String>) -> (parsed: Option<bool>)
    ensures
        parsed == read_word(value.deep_view(), |w: Seq<char>| bool_word(w)),
{
    match value {
        Some(v) => if same_text(v.as_str(), "true") {
            Some(true)
        } else if same_text(v.as_str(), "false") {
            Some(false)
        } else {
            None
        },
        None => None,
    }
}

/// Read the round-tripped block-style attributes off a djot block's attributes,
/// honouring the import [`DjotImportOptions`]. Keys are the field names of the
/// options; unrecognised values are ignored.
pub fn block_attrs_to_style(attrs: &Vec<(String, String)>, opts: &DjotImportOptions) -> (style:
    DjotBlockStyle)
    ensures
        style.deep_view() == attrs_style(attrs.deep_view(), *opts),
{
    let mut style = DjotBlockStyle::default();
    if let Some(v) = find_attr(opts.alignment, attrs, "alignment") {
        style.alignment = if same_text(v.as_str(), "left") {
            Some(Alignment::Left)
        } else if same_text(v.as_str(), "right") {
            Some(Alignment::Right)
        } else if same_text(v.as_str(), "center") {
            Some(Alignment::Center)
        } else if same_text(v.as_str(), "justify") {
            Some(Alignment::Justify)
        } else {
            None
        };
    }
    style.line_height = number_value(find_attr(opts.line_height, attrs, "line_height"));
    if let Some(v) = find_attr(opts.direction, attrs, "direction") {
        style.direction = if same_text(v.as_str(), "ltr") {
            Some(TextDirection::LeftToRight)
        } else if same_text(v.as_str(), "rtl") {
            Some(TextDirection::RightToLeft)
        } else {
            None
        };
    }
    style.non_breakable_lines = bool_value(
        find_attr(opts.non_breakable_lines, attrs, "non_breakable_lines"),
    );
    style.page_break_before = bool_value(
        find_attr(opts.page_break_before, attrs, "page_break_before"),
    );
    if let Some(v) = find_attr(opts.background_color, attrs, "background_color") {
        style.background_color = Some(v.clone());
    }
    style.top_margin = number_value(find_attr(opts.top_margin, attrs, "top_margin"));
    style.text_indent = number_value(find_attr(opts.text_indent, attrs, "text_indent"));
    if let Some(v) = find_attr(opts.semantic_role, attrs, "semantic_role") {
        if same_text(v.as_str(), "epigraph") {
            style.semantic_role = Some(SemanticRole::Epigraph);
        }
    }
    style
}

/// A size in pixels from a value, zero where it is missing or not positive.
pub open spec fn pixels(value: Option<Seq<char>>) -> i64 {
    match value {
        Some(text) => match number(trim(text)) {
            Some(n) => if n > 0 {
                n
            } else {
                0
            },
            None => 0,
        },
        None => 0,
    }
}

/// A size in pixels from a value, zero where it is missing or not positive.
fn pixels_value(value: Option<&String>) -> (n: i64)
    ensures
        n == pixels(value.deep_view()),
{
    if let Some(v) = value {
        let chars = trimmed(to_chars(v.as_str()).as_slice());
        if let Some(n) = parse_number(chars.as_slice()) {
            if n > 0 {
                return n;
            }
        }
    }
    0
}

// ─── From events to elements ─────────────────────────────────────────

/// The inline formatting that is open.
#[verifier::ext_equal]
pub struct MarksModel {
    pub bold: bool,
    pub italic: bool,
    pub underline: bool,
    pub strikeout: bool,
    pub code: bool,
    pub superscript: bool,
    pub subscript: bool,
    pub link: Option<Seq<char>>,
}

/// What the next block inherits from the list item that is open.
#[verifier::ext_equal]
pub struct ItemModel {
    pub style: Option<ListStyle>,
    pub prefix: Seq<char>,
    pub suffix: Seq<char>,
    pub indent: int,
    pub marker: Option<MarkerType>,
}

/// The table that is open.
#[verifier::ext_equal]
pub struct OpenTable {
    pub in_cell: bool,
    pub rows: Seq<Seq<Seq<SpanModel>>>,
    pub row: Seq<Seq<SpanModel>>,
    pub cell: Seq<SpanModel>,
    pub header_rows: int,
    pub row_is_head: bool,
}

/// What the reader knows between two events.
#[verifier::ext_equal]
pub struct DjotState {
    /// What was read so far.
    pub elements: Seq<ElementModel>,
    /// The spans of the block that is open.
    pub spans: Seq<SpanModel>,
    pub heading: Option<i64>,
    pub is_code_block: bool,
    pub code_language: Option<Seq<char>>,
    pub blockquote_depth: int,
    /// The style of the block that is open.
    pub style: StyleModel,
    pub marks: MarksModel,
    /// The image that is open; text goes to its description.
    pub image: Option<PictureModel>,
    pub lists: Seq<ListModel>,
    pub item: ItemModel,
    pub table: OpenTable,
    /// How deep the reader is in a construct that it drops.
    pub skip: int,
    /// The footnote that is open: its label, and where its blocks begin.
    pub footnote: Option<(Seq<char>, int)>,
}

/// The state before the first event.
pub open spec fn djot_start() -> DjotState {
    DjotState {
        elements: Seq::empty(),
        spans: Seq::empty(),
        heading: None,
        is_code_block: false,
        code_language: None,
        blockquote_depth: 0,
        style: no_style(),
        marks: MarksModel {
            bold: false,
            italic: false,
            underline: false,
            strikeout: false,
            code: false,
            superscript: false,
            subscript: false,
            link: None,
        },
        image: None,
        lists: Seq::empty(),
        item: ItemModel {
            style: None,
            prefix: Seq::empty(),
            suffix: Seq::empty(),
            indent: 0,
            marker: None,
        },
        table: OpenTable {
            in_cell: false,
            rows: Seq::empty(),
            row: Seq::empty(),
            cell: Seq::empty(),
            header_rows: 0,
            row_is_head: false,
        },
        skip: 0,
        footnote: None,
    }
}

/// A block of spans at the open blockquote depth, in a style.
pub open spec fn styled_block(s: DjotState, style: StyleModel) -> BlockModel {
    BlockModel {
        blockquote_depth: s.blockquote_depth,
        line_height: style.line_height,
        non_breakable_lines: style.non_breakable_lines,
        page_break_before: style.page_break_before,
        direction: style.direction,
        background_color: style.background_color,
        alignment: style.alignment,
        top_margin: style.top_margin,
        text_indent: style.text_indent,
        semantic_role: style.semantic_role,
        ..paragraph(s.spans)
    }
}

/// The open spans as a block of the open list item.
pub open spec fn item_block(s: DjotState, style: StyleModel) -> BlockModel {
    BlockModel {
        list_style: s.item.style,
        list_indent: s.item.indent,
        list_prefix: s.item.prefix,
        list_suffix: s.item.suffix,
        marker: s.item.marker,
        ..styled_block(s, style)
    }
}

/// Closes the open spans into a block.
pub open spec fn close_spans(s: DjotState, block: BlockModel) -> DjotState {
    DjotState {
        elements: s.elements.push(ElementModel::Block(block)),
        spans: Seq::empty(),
        ..s
    }
}

/// Closes the open spans, if there are any, into an unstyled block of the open
/// list item.
pub open spec fn flush_item(s: DjotState) -> DjotState {
    if s.spans.len() > 0 {
        close_spans(s, item_block(s, no_style()))
    } else {
        s
    }
}

/// No list item is open.
pub open spec fn leave_item(s: DjotState) -> DjotState {
    DjotState { item: ItemModel { style: None, marker: None, ..s.item }, ..s }
}

/// A list item begins.
pub open spec fn enter_item(s: DjotState, marker: Option<MarkerType>) -> DjotState {
    let flushed = flush_item(s);
    let list = if s.lists.len() > 0 {
        s.lists.last()
    } else {
        ListModel { style: ListStyle::Disc, prefix: Seq::empty(), suffix: Seq::empty() }
    };
    DjotState {
        item: ItemModel {
            style: Some(list.style),
            prefix: list.prefix,
            suffix: list.suffix,
            indent: if s.lists.len() > 0 {
                (s.lists.len() - 1) % 0x1_0000_0000
            } else {
                0
            },
            marker,
        },
        ..flushed
    }
}

/// A span in the open formatting.
pub open spec fn marked_span(marks: MarksModel, text: Seq<char>) -> SpanModel {
    SpanModel {
        text,
        bold: marks.bold,
        italic: marks.italic,
        underline: marks.underline,
        strikeout: marks.strikeout,
        code: marks.code,
        superscript: marks.superscript,
        subscript: marks.subscript,
        link_href: marks.link,
        ..empty_span()
    }
}

/// Adds a span to the open table cell or the open block.
pub open spec fn add_djot_span(s: DjotState, span: SpanModel) -> DjotState {
    if s.table.in_cell {
        DjotState { table: OpenTable { cell: s.table.cell.push(span), ..s.table }, ..s }
    } else {
        DjotState { spans: s.spans.push(span), ..s }
    }
}

/// Reads text: it goes to the image that is open, or becomes a span.
pub open spec fn read_text(s: DjotState, text: Seq<char>) -> DjotState {
    match s.image {
        Some(image) => DjotState {
            image: Some(PictureModel { alt: image.alt + text, ..image }),
            ..s
        },
        None => add_djot_span(s, marked_span(s.marks, text)),
    }
}

/// Whether the document model cannot hold a construct, so that its whole
/// content is dropped.
pub open spec fn is_dropped(tag: DjotTag) -> bool {
    ||| tag is Math
    ||| tag is RawBlock
    ||| tag is RawInline
    ||| tag is DescriptionList
    ||| tag is DescriptionDetails
    ||| tag is DescriptionTerm
    ||| tag is Caption
    ||| tag is LinkDefinition
}

/// The inline formatting where a construct begins or ends.
pub open spec fn set_mark(marks: MarksModel, tag: DjotTag, on: bool, text: Seq<char>) -> MarksModel {
    match tag {
        DjotTag::Strong => MarksModel { bold: on, ..marks },
        DjotTag::Emphasis => MarksModel { italic: on, ..marks },
        DjotTag::Verbatim => MarksModel { code: on, ..marks },
        DjotTag::Superscript => MarksModel { superscript: on, ..marks },
        DjotTag::Subscript => MarksModel { subscript: on, ..marks },
        DjotTag::Insert => MarksModel { underline: on, ..marks },
        DjotTag::Delete => MarksModel { strikeout: on, ..marks },
        DjotTag::Link => MarksModel {
            link: if on {
                Some(text)
            } else {
                None
            },
            ..marks
        },
        _ => marks,
    }
}

/// Whether a construct is one of inline formatting.
pub open spec fn is_mark(tag: DjotTag) -> bool {
    ||| tag is Strong
    ||| tag is Emphasis
    ||| tag is Verbatim
    ||| tag is Superscript
    ||| tag is Subscript
    ||| tag is Insert
    ||| tag is Delete
    ||| tag is Link
}

/// A construct begins.
pub open spec fn djot_open(
    s: DjotState,
    tag: DjotTag,
    text: Seq<char>,
    attrs: Seq<(Seq<char>, Seq<char>)>,
    opts: DjotImportOptions,
) -> DjotState {
    if is_dropped(tag) {
        DjotState { skip: 1, ..s }
    } else if is_mark(tag) {
        DjotState { marks: set_mark(s.marks, tag, true, text), ..s }
    } else {
        match tag {
            // A heading's block attributes attach to its enclosing section.
            DjotTag::Section => if s.lists.len() == 0 {
                DjotState { style: overlaid(s.style, attrs_style(attrs, opts)), ..s }
            } else {
                s
            },
            DjotTag::Blockquote => DjotState {
                blockquote_depth: one_more(s.blockquote_depth, u32::MAX as int),
                ..s
            },
            DjotTag::List(list) => DjotState { lists: s.lists.push(list_model(list)), ..s },
            DjotTag::ListItem => enter_item(s, None),
            DjotTag::TaskListItem(checked) => enter_item(
                s,
                Some(
                    if checked {
                        MarkerType::Checked
                    } else {
                        MarkerType::Unchecked
                    },
                ),
            ),
            DjotTag::Heading(level) => DjotState {
                heading: Some(level as i64),
                style: overlaid(s.style, attrs_style(attrs, opts)),
                ..s
            },
            DjotTag::Paragraph => DjotState {
                heading: None,
                style: if s.lists.len() == 0 {
                    attrs_style(attrs, opts)
                } else {
                    no_style()
                },
                ..s
            },
            DjotTag::CodeBlock => DjotState {
                is_code_block: true,
                code_language: if text.len() > 0 {
                    Some(text)
                } else {
                    None
                },
                ..s
            },
            DjotTag::Table => DjotState {
                table: OpenTable {
                    rows: Seq::empty(),
                    row: Seq::empty(),
                    cell: Seq::empty(),
                    header_rows: 0,
                    ..s.table
                },
                ..s
            },
            DjotTag::TableRow(head) => DjotState {
                table: OpenTable { row_is_head: head, row: Seq::empty(), ..s.table },
                ..s
            },
            DjotTag::TableCell => DjotState {
                table: OpenTable { in_cell: true, cell: Seq::empty(), ..s.table },
                ..s
            },
            DjotTag::Image => DjotState {
                image: Some(
                    PictureModel {
                        src: text,
                        alt: Seq::empty(),
                        width: pixels(attr_value(attrs, "width"@)),
                        height: pixels(attr_value(attrs, "height"@)),
                    },
                ),
                ..s
            },
            DjotTag::Footnote => {
                let flushed = flush_item(s);
                DjotState {
                    footnote: Some((text, flushed.elements.len() as int)),
                    ..flushed
                }
            },
            _ => s,
        }
    }
}

/// A construct ends.
pub open spec fn djot_close(s: DjotState, tag: DjotTag) -> DjotState {
    if is_mark(tag) {
        DjotState { marks: set_mark(s.marks, tag, false, Seq::empty()), ..s }
    } else {
        match tag {
            DjotTag::Blockquote => DjotState {
                blockquote_depth: if s.blockquote_depth > 0 {
                    s.blockquote_depth - 1
                } else {
                    0
                },
                ..s
            },
            DjotTag::List(_) => leave_item(
                DjotState {
                    lists: if s.lists.len() > 0 {
                        s.lists.drop_last()
                    } else {
                        s.lists
                    },
                    ..s
                },
            ),
            DjotTag::ListItem => leave_item(flush_item(s)),
            DjotTag::TaskListItem(_) => leave_item(flush_item(s)),
            DjotTag::Heading(_) => DjotState {
                heading: None,
                style: no_style(),
                ..close_spans(s, BlockModel { heading_level: s.heading, ..styled_block(s, s.style) })
            },
            DjotTag::Paragraph => leave_item(
                if s.spans.len() > 0 {
                    DjotState { style: no_style(), ..close_spans(s, item_block(s, s.style)) }
                } else {
                    s
                },
            ),
            DjotTag::CodeBlock => DjotState {
                code_language: None,
                is_code_block: false,
                ..close_spans(
                    s,
                    BlockModel {
                        spans: without_final_newline(s.spans),
                        is_code_block: true,
                        code_language: s.code_language,
                        ..styled_block(s, no_style())
                    },
                )
            },
            DjotTag::Table => DjotState {
                elements: s.elements.push(
                    ElementModel::Table(
                        TableModel {
                            header_rows: s.table.header_rows,
                            rows: s.table.rows,
                            blockquote_depth: s.blockquote_depth,
                        },
                    ),
                ),
                table: OpenTable { rows: Seq::empty(), ..s.table },
                ..s
            },
            DjotTag::TableRow(_) => DjotState {
                table: OpenTable {
                    header_rows: if s.table.row_is_head {
                        one_more(s.table.header_rows, usize::MAX as int)
                    } else {
                        s.table.header_rows
                    },
                    rows: s.table.rows.push(s.table.row),
                    row: Seq::empty(),
                    ..s.table
                },
                ..s
            },
            DjotTag::TableCell => DjotState {
                table: OpenTable {
                    in_cell: false,
                    row: s.table.row.push(s.table.cell),
                    cell: Seq::empty(),
                    ..s.table
                },
                ..s
            },
            DjotTag::Image => match s.image {
                Some(image) => add_djot_span(
                    DjotState { image: None, ..s },
                    SpanModel { image: Some(image), ..marked_span(s.marks, Seq::empty()) },
                ),
                None => s,
            },
            DjotTag::Footnote => {
                let flushed = flush_item(s);
                match s.footnote {
                    Some((label, start)) => DjotState {
                        elements: lift_footnote(flushed.elements, label, start),
                        footnote: None,
                        ..flushed
                    },
                    None => flushed,
                }
            },
            _ => s,
        }
    }
}

/// The text that an atom stands for.
pub open spec fn atom_char(atom: DjotAtom) -> Option<char> {
    match atom {
        DjotAtom::LeftSingleQuote => Some('\u{2018}'),
        DjotAtom::RightSingleQuote => Some('\u{2019}'),
        DjotAtom::LeftDoubleQuote => Some('\u{201C}'),
        DjotAtom::RightDoubleQuote => Some('\u{201D}'),
        DjotAtom::Ellipsis => Some('\u{2026}'),
        DjotAtom::EnDash => Some('\u{2013}'),
        DjotAtom::EmDash => Some('\u{2014}'),
        DjotAtom::NonBreakingSpace => Some('\u{00A0}'),
        DjotAtom::Softbreak => Some(' '),
        DjotAtom::Hardbreak => None,
        DjotAtom::Other => None,
    }
}

/// A hard break: a space in a table cell, else the end of the block.
pub open spec fn djot_break(s: DjotState) -> DjotState {
    if s.table.in_cell {
        read_text(s, seq![' '])
    } else if s.spans.len() > 0 {
        close_spans(
            s,
            BlockModel {
                is_code_block: s.is_code_block,
                code_language: s.code_language,
                ..item_block(s, s.style)
            },
        )
    } else {
        s
    }
}

/// The next event.
pub open spec fn djot_step(
    s: DjotState,
    event: DjotEventModel,
    opts: DjotImportOptions,
) -> DjotState {
    if s.skip > 0 {
        match event {
            DjotEventModel::Start(_, _, _) => DjotState {
                skip: one_more(s.skip, u32::MAX as int),
                ..s
            },
            DjotEventModel::End(_) => DjotState { skip: s.skip - 1, ..s },
            _ => s,
        }
    } else {
        match event {
            DjotEventModel::Start(tag, text, attrs) => djot_open(s, tag, text, attrs, opts),
            DjotEventModel::End(tag) => djot_close(s, tag),
            DjotEventModel::Str(text) => read_text(s, text),
            DjotEventModel::FootnoteReference(label) => add_djot_span(
                s,
                SpanModel { footnote_ref: Some(label), ..marked_span(s.marks, Seq::empty()) },
            ),
            DjotEventModel::Atom(atom) => match atom_char(atom) {
                Some(c) => read_text(s, seq![c]),
                None => if atom is Hardbreak {
                    djot_break(s)
                } else {
                    s
                },
            },
        }
    }
}

/// The state after events.
pub open spec fn djot_after(events: Seq<DjotEventModel>, opts: DjotImportOptions) -> DjotState
    decreases events.len(),
{
    if events.len() == 0 {
        djot_start()
    } else {
        djot_step(djot_after(events.drop_last(), opts), events.last(), opts)
    }
}

/// What is left open when a document ends becomes its last block.
pub open spec fn djot_rest(s: DjotState) -> Seq<ElementModel> {
    if s.spans.len() > 0 {
        s.elements.push(
            ElementModel::Block(
                BlockModel {
                    heading_level: s.heading,
                    is_code_block: s.is_code_block,
                    code_language: s.code_language,
                    ..item_block(s, s.style)
                },
            ),
        )
    } else {
        s.elements
    }
}

/// The elements of a document with these events.
pub open spec fn djot_elements(events: Seq<DjotEventModel>, opts: DjotImportOptions) -> Seq<
    ElementModel,
> {
    or_empty_paragraph(djot_rest(djot_after(events, opts)))
}

/// The inline formatting that is open.
struct Marks {
    bold: bool,
    italic: bool,
    underline: bool,
    strikeout: bool,
    code: bool,
    superscript: bool,
    subscript: bool,
    link: Option<String>,
}

impl DeepView for Marks {
    type V = MarksModel;

    closed spec fn deep_view(&self) -> MarksModel {
        MarksModel {
            bold: self.bold,
            italic: self.italic,
            underline: self.underline,
            strikeout: self.strikeout,
            code: self.code,
            superscript: self.superscript,
            subscript: self.subscript,
            link: self.link.deep_view(),
        }
    }
}

impl Marks {
    /// A construct of inline formatting begins or ends.
    fn set(&mut self, tag: DjotTag, on: bool, text: String)
        ensures
            final(self).deep_view() == set_mark(old(self).deep_view(), tag, on, text@),
    {
        match tag {
            DjotTag::Strong => {
                self.bold = on;
            },
            DjotTag::Emphasis => {
                self.italic = on;
            },
            DjotTag::Verbatim => {
                self.code = on;
            },
            DjotTag::Superscript => {
                self.superscript = on;
            },
            DjotTag::Subscript => {
                self.subscript = on;
            },
            DjotTag::Insert => {
                self.underline = on;
            },
            DjotTag::Delete => {
                self.strikeout = on;
            },
            DjotTag::Link => {
                self.link = if on {
                    Some(text)
                } else {
                    None
                };
            },
            _ => {},
        }
    }

    /// A span in the open formatting.
    fn span(&self, text: String) -> (span: ParsedSpan)
        ensures
            span.deep_view() == marked_span(self.deep_view(), text@),
    {
        let mut span = ParsedSpan::default();
        span.text = text;
        span.bold = self.bold;
        span.italic = self.italic;
        span.underline = self.underline;
        span.strikeout = self.strikeout;
        span.code = self.code;
        span.superscript = self.superscript;
        span.subscript = self.subscript;
        span.link_href = self.link.clone();
        span
    }
}

/// What the next block inherits from the list item that is open.
struct Item {
    style: Option<ListStyle>,
    prefix: String,
    suffix: String,
    indent: u32,
    marker: Option<MarkerType>,
}

impl DeepView for Item {
    type V = ItemModel;

    closed spec fn deep_view(&self) -> ItemModel {
        ItemModel {
            style: self.style,
            prefix: self.prefix@,
            suffix: self.suffix@,
            indent: self.indent as int,
            marker: self.marker,
        }
    }
}

/// The table that is open.
struct TableReader {
    in_cell: bool,
    rows: Vec<Vec<ParsedTableCell>>,
    row: Vec<ParsedTableCell>,
    cell: Vec<ParsedSpan>,
    header_rows: usize,
    row_is_head: bool,
}

impl DeepView for TableReader {
    type V = OpenTable;

    closed spec fn deep_view(&self) -> OpenTable {
        OpenTable {
            in_cell: self.in_cell,
            rows: self.rows.deep_view(),
            row: self.row.deep_view(),
            cell: self.cell.deep_view(),
            header_rows: self.header_rows as int,
            row_is_head: self.row_is_head,
        }
    }
}

/// The reader between two events.
struct DjotReader {
    elements: Vec<ParsedElement>,
    spans: Vec<ParsedSpan>,
    heading: Option<i64>,
    is_code_block: bool,
    code_language: Option<String>,
    blockquote_depth: u32,
    style: DjotBlockStyle,
    marks: Marks,
    image: Option<ParsedImage>,
    lists: Vec<ListKeeper>,
    item: Item,
    table: TableReader,
    skip: u32,
    footnote: Option<(String, usize)>,
}

impl DeepView for DjotReader {
    type V = DjotState;

    closed spec fn deep_view(&self) -> DjotState {
        DjotState {
            elements: self.elements.deep_view(),
            spans: self.spans.deep_view(),
            heading: self.heading,
            is_code_block: self.is_code_block,
            code_language: self.code_language.deep_view(),
            blockquote_depth: self.blockquote_depth as int,
            style: self.style.deep_view(),
            marks: self.marks.deep_view(),
            image: self.image.deep_view(),
            lists: self.lists.deep_view(),
            item: self.item.deep_view(),
            table: self.table.deep_view(),
            skip: self.skip as int,
            footnote: match self.footnote {
                Some((label, start)) => Some((label@, start as int)),
                None => None,
            },
        }
    }
}

/// Whether the open footnote begins within what was read.
pub open spec fn djot_footnote_within(s: DjotState) -> bool {
    s.footnote matches Some((_, start)) ==> 0 <= start <= s.elements.len()
}

impl DjotReader {
    fn new() -> (reader: Self)
        ensures
            reader.deep_view() == djot_start(),
    {
        let reader = DjotReader {
            elements: Vec::new(),
            spans: Vec::new(),
            heading: None,
            is_code_block: false,
            code_language: None,
            blockquote_depth: 0,
            style: DjotBlockStyle::default(),
            marks: Marks {
                bold: false,
                italic: false,
                underline: false,
                strikeout: false,
                code: false,
                superscript: false,
                subscript: false,
                link: None,
            },
            image: None,
            lists: Vec::new(),
            item: Item {
                style: None,
                prefix: String::new(),
                suffix: String::new(),
                indent: 0,
                marker: None,
            },
            table: TableReader {
                in_cell: false,
                rows: Vec::new(),
                row: Vec::new(),
                cell: Vec::new(),
                header_rows: 0,
                row_is_head: false,
            },
            skip: 0,
            footnote: None,
        };
        assert(reader.deep_view() =~= djot_start());
        reader
    }

    /// The open spans as a block at the open blockquote depth, in a style.
    fn take_styled(&mut self, style: DjotBlockStyle) -> (block: ParsedBlock)
        ensures
            block.deep_view() == styled_block(old(self).deep_view(), style.deep_view()),
            final(self).deep_view() == (DjotState { spans: Seq::empty(), ..old(self).deep_view() }),
    {
        let ghost before = self.deep_view();
        let mut block = ParsedBlock::paragraph(take_vec(&mut self.spans));
        block.blockquote_depth = self.blockquote_depth;
        block.line_height = style.line_height;
        block.non_breakable_lines = style.non_breakable_lines;
        block.page_break_before = style.page_break_before;
        block.direction = style.direction;
        block.background_color = style.background_color;
        block.alignment = style.alignment;
        block.top_margin = style.top_margin;
        block.text_indent = style.text_indent;
        block.semantic_role = style.semantic_role;
        assert(block.deep_view() =~= styled_block(before, style.deep_view()));
        assert(self.deep_view() =~= (DjotState { spans: Seq::empty(), ..before }));
        block
    }

    /// The open spans as a block of the open list item.
    fn take_item(&mut self, style: DjotBlockStyle) -> (block: ParsedBlock)
        ensures
            block.deep_view() == item_block(old(self).deep_view(), style.deep_view()),
            final(self).deep_view() == (DjotState { spans: Seq::empty(), ..old(self).deep_view() }),
    {
        let mut block = self.take_styled(style);
        block.list_style = self.item.style;
        block.list_indent = self.item.indent;
        block.list_prefix = self.item.prefix.clone();
        block.list_suffix = self.item.suffix.clone();
        block.marker = self.item.marker;
        block
    }

    /// Puts a block behind what was read.
    fn push_block(&mut self, block: ParsedBlock)
        ensures
            final(self).deep_view() == (DjotState {
                elements: old(self).deep_view().elements.push(
                    ElementModel::Block(block.deep_view()),
                ),
                ..old(self).deep_view()
            }),
    {
        self.elements.push(ParsedElement::Block(block));
        assert(self.deep_view() =~= (DjotState {
            elements: old(self).deep_view().elements.push(ElementModel::Block(block.deep_view())),
            ..old(self).deep_view()
        }));
    }

    /// Closes the open spans, if there are any, into an unstyled block of the
    /// open list item.
    fn flush(&mut self)
        ensures
            final(self).deep_view() == flush_item(old(self).deep_view()),
    {
        if self.spans.len() > 0 {
            let block = self.take_item(DjotBlockStyle::default());
            self.push_block(block);
        }
    }

    /// No list item is open.
    fn leave(&mut self)
        ensures
            final(self).deep_view() == leave_item(old(self).deep_view()),
    {
        self.item.style = None;
        self.item.marker = None;
        assert(self.deep_view() =~= leave_item(old(self).deep_view()));
    }

    /// A list item begins.
    fn enter(&mut self, marker: Option<MarkerType>)
        ensures
            final(self).deep_view() == enter_item(old(self).deep_view(), marker),
    {
        self.flush();
        let ghost flushed = self.deep_view();
        let count: usize = self.lists.len();
        let item: Item = if count > 0 {
            let list = &self.lists[count - 1];
            Item {
                style: Some(list.style),
                prefix: list.prefix.clone(),
                suffix: list.suffix.clone(),
                indent: ((count - 1) as u64 % 0x1_0000_0000u64) as u32,
                marker,
            }
        } else {
            Item {
                style: Some(ListStyle::Disc),
                prefix: String::new(),
                suffix: String::new(),
                indent: 0,
                marker,
            }
        };
        proof {
            if count > 0 {
                assert(flushed.lists.last() == self.lists[count - 1].deep_view());
            }
            assert(item.deep_view() =~= enter_item(old(self).deep_view(), marker).item);
        }
        self.item = item;
        assert(self.deep_view() =~= enter_item(old(self).deep_view(), marker));
    }

    /// Adds a span to the open table cell or the open block.
    fn put(&mut self, span: ParsedSpan)
        ensures
            final(self).deep_view() == add_djot_span(old(self).deep_view(), span.deep_view()),
    {
        if self.table.in_cell {
            self.table.cell.push(span);
            assert(self.table.deep_view() =~= add_djot_span(
                old(self).deep_view(),
                span.deep_view(),
            ).table);
        } else {
            self.spans.push(span);
        }
        assert(self.deep_view() =~= add_djot_span(old(self).deep_view(), span.deep_view()));
    }

    /// Reads text: it goes to the image that is open, or becomes a span.
    fn text(&mut self, text: &str)
        ensures
            final(self).deep_view() == read_text(old(self).deep_view(), text@),
    {
        if let Some(mut image) = self.image.take() {
            image.alt.push_str(text);
            self.image = Some(image);
            assert(self.deep_view() =~= read_text(old(self).deep_view(), text@));
        } else {
            assert(self.deep_view() =~= old(self).deep_view());
            let span = self.marks.span(text.to_string());
            self.put(span);
        }
    }

    /// Reads one character.
    fn character(&mut self, c: char)
        ensures
            final(self).deep_view() == read_text(old(self).deep_view(), seq![c]),
    {
        let mut text = String::new();
        text.push(c);
        assert(text@ =~= seq![c]);
        self.text(text.as_str());
    }

    /// A construct of blocks begins.
    fn open_block(
        &mut self,
        tag: DjotTag,
        text: String,
        attrs: &Vec<(String, String)>,
        opts: &DjotImportOptions,
    )
        requires
            tag is Section || tag is Blockquote || tag is Heading || tag is Paragraph
                || tag is CodeBlock || tag is Image,
        ensures
            final(self).deep_view() == djot_open(
                old(self).deep_view(),
                tag,
                text@,
                attrs.deep_view(),
                *opts,
            ),
    {
        let ghost before = self.deep_view();
        match tag {
            DjotTag::Section => {
                if self.lists.len() == 0 {
                    self.style.merge_from(block_attrs_to_style(attrs, opts));
                }
            },
            DjotTag::Blockquote => {
                if self.blockquote_depth < u32::MAX {
                    self.blockquote_depth = self.blockquote_depth + 1;
                }
            },
            DjotTag::Heading(level) => {
                self.heading = Some(level as i64);
                // The block-style attributes live on the enclosing section;
                // merge any placed directly on the heading without clearing them.
                self.style.merge_from(block_attrs_to_style(attrs, opts));
            },
            DjotTag::Paragraph => {
                self.heading = None;
                // Block attributes only apply to standalone paragraphs.
                self.style = if self.lists.len() == 0 {
                    block_attrs_to_style(attrs, opts)
                } else {
                    DjotBlockStyle::default()
                };
            },
            DjotTag::CodeBlock => {
                self.is_code_block = true;
                self.code_language = if text.as_str().is_empty() {
                    None
                } else {
                    Some(text)
                };
            },
            DjotTag::Image => {
                let image = ParsedImage {
                    src: text,
                    alt: String::new(),
                    width: pixels_value(find_attr(true, attrs, "width")),
                    height: pixels_value(find_attr(true, attrs, "height")),
                };
                self.image = Some(image);
                assert(image.deep_view() =~= djot_open(
                    before,
                    tag,
                    text@,
                    attrs.deep_view(),
                    *opts,
                ).image->0);
            },
            _ => {},
        }
        assert(self.deep_view() =~= djot_open(before, tag, text@, attrs.deep_view(), *opts));
    }

    /// A list, an item, a part of a table or a footnote begins.
    fn open_container(&mut self, tag: DjotTag, text: String)
        requires
            tag is List || tag is ListItem || tag is TaskListItem || tag is Table || tag is TableRow
                || tag is TableCell || tag is Footnote,
            djot_footnote_within(old(self).deep_view()),
        ensures
            forall|attrs: Seq<(Seq<char>, Seq<char>)>, opts: DjotImportOptions|
                final(self).deep_view() == #[trigger] djot_open(
                    old(self).deep_view(),
                    tag,
                    text@,
                    attrs,
                    opts,
                ),
            djot_footnote_within(final(self).deep_view()),
    {
        let ghost before = self.deep_view();
        let ghost goal = djot_open(
            before,
            tag,
            text@,
            Seq::empty(),
            DjotImportOptions {
                alignment: true,
                line_height: true,
                direction: true,
                non_breakable_lines: true,
                page_break_before: true,
                background_color: true,
                top_margin: true,
                text_indent: true,
                semantic_role: true,
            },
        );
        match tag {
            DjotTag::List(list) => {
                self.lists.push(keep_list(list));
            },
            DjotTag::ListItem => {
                self.enter(None);
            },
            DjotTag::TaskListItem(checked) => {
                self.enter(
                    Some(
                        if checked {
                            MarkerType::Checked
                        } else {
                            MarkerType::Unchecked
                        },
                    ),
                );
            },
            DjotTag::Table => {
                self.table.rows = Vec::new();
                self.table.row = Vec::new();
                self.table.cell = Vec::new();
                self.table.header_rows = 0;
                assert(self.table.deep_view() =~= goal.table);
            },
            DjotTag::TableRow(head) => {
                self.table.row_is_head = head;
                self.table.row = Vec::new();
                assert(self.table.deep_view() =~= goal.table);
            },
            DjotTag::TableCell => {
                self.table.in_cell = true;
                self.table.cell = Vec::new();
                assert(self.table.deep_view() =~= goal.table);
            },
            DjotTag::Footnote => {
                self.flush();
                self.footnote = Some((text, self.elements.len()));
            },
            _ => {},
        }
        assert(self.deep_view() =~= goal);
    }

    /// A block, a blockquote or a list ends.
    fn close_block(&mut self, tag: DjotTag)
        requires
            tag is Blockquote || tag is List || tag is ListItem || tag is TaskListItem
                || tag is Heading || tag is Paragraph || tag is CodeBlock,
            djot_footnote_within(old(self).deep_view()),
        ensures
            final(self).deep_view() == djot_close(old(self).deep_view(), tag),
            djot_footnote_within(final(self).deep_view()),
    {
        let ghost before = self.deep_view();
        match tag {
            DjotTag::Blockquote => {
                if self.blockquote_depth > 0 {
                    self.blockquote_depth = self.blockquote_depth - 1;
                }
                assert(self.deep_view() =~= djot_close(before, tag));
            },
            DjotTag::List(_) => {
                let _ = self.lists.pop();
                assert(self.lists.deep_view() =~= if before.lists.len() > 0 {
                    before.lists.drop_last()
                } else {
                    before.lists
                });
                self.leave();
                assert(self.deep_view() =~= djot_close(before, tag));
            },
            DjotTag::ListItem => {
                self.flush();
                self.leave();
            },
            DjotTag::TaskListItem(_) => {
                self.flush();
                self.leave();
            },
            DjotTag::Heading(_) => {
                let mut style = DjotBlockStyle::default();
                std::mem::swap(&mut style, &mut self.style);
                let mut block = self.take_styled(style);
                block.heading_level = self.heading.take();
                self.push_block(block);
                assert(self.deep_view() =~= djot_close(before, tag));
            },
            DjotTag::Paragraph => {
                if self.spans.len() > 0 {
                    let mut style = DjotBlockStyle::default();
                    std::mem::swap(&mut style, &mut self.style);
                    let block = self.take_item(style);
                    self.push_block(block);
                }
                self.leave();
                assert(self.deep_view() =~= djot_close(before, tag));
            },
            DjotTag::CodeBlock => {
                let mut block = self.take_styled(DjotBlockStyle::default());
                strip_final_newline(&mut block.spans);
                block.is_code_block = true;
                block.code_language = self.code_language.take();
                self.push_block(block);
                self.is_code_block = false;
                assert(self.deep_view() =~= djot_close(before, tag));
            },
            _ => {},
        }
    }

    /// A part of a table, an image or a footnote ends.
    fn close_object(&mut self, tag: DjotTag)
        requires
            tag is Table || tag is TableRow || tag is TableCell || tag is Image || tag is Footnote,
            djot_footnote_within(old(self).deep_view()),
        ensures
            final(self).deep_view() == djot_close(old(self).deep_view(), tag),
            djot_footnote_within(final(self).deep_view()),
    {
        let ghost before = self.deep_view();
        match tag {
            DjotTag::Table => {
                let rows = take_vec(&mut self.table.rows);
                self.elements.push(
                    ParsedElement::Table(
                        ParsedTable {
                            header_rows: self.table.header_rows,
                            rows,
                            blockquote_depth: self.blockquote_depth,
                        },
                    ),
                );
                assert(self.table.deep_view() =~= djot_close(before, tag).table);
                assert(self.elements.deep_view() =~= djot_close(before, tag).elements);
            },
            DjotTag::TableRow(_) => {
                if self.table.row_is_head && self.table.header_rows < usize::MAX {
                    self.table.header_rows = self.table.header_rows + 1;
                }
                let row = take_vec(&mut self.table.row);
                self.table.rows.push(row);
                assert(self.table.deep_view() =~= djot_close(before, tag).table);
            },
            DjotTag::TableCell => {
                self.table.in_cell = false;
                let spans = take_vec(&mut self.table.cell);
                self.table.row.push(ParsedTableCell { spans });
                assert(self.table.deep_view() =~= djot_close(before, tag).table);
            },
            DjotTag::Image => {
                if let Some(image) = self.image.take() {
                    let mut span = self.marks.span(String::new());
                    span.image = Some(image);
                    assert(span.deep_view() =~= (SpanModel {
                        image: before.image,
                        ..marked_span(before.marks, Seq::empty())
                    }));
                    assert(self.deep_view() =~= (DjotState { image: None, ..before }));
                    self.put(span);
                }
            },
            DjotTag::Footnote => {
                self.flush();
                if let Some((label, start)) = self.footnote.take() {
                    lift_into_footnote(&mut self.elements, label, start);
                }
            },
            _ => {},
        }
        assert(self.deep_view() =~= djot_close(before, tag));
    }

    /// A construct begins.
    fn open(
        &mut self,
        tag: DjotTag,
        text: String,
        attrs: &Vec<(String, String)>,
        opts: &DjotImportOptions,
    )
        requires
            djot_footnote_within(old(self).deep_view()),
        ensures
            final(self).deep_view() == djot_open(
                old(self).deep_view(),
                tag,
                text@,
                attrs.deep_view(),
                *opts,
            ),
            djot_footnote_within(final(self).deep_view()),
    {
        let ghost before = self.deep_view();
        match tag {
            DjotTag::Math | DjotTag::RawBlock | DjotTag::RawInline | DjotTag::DescriptionList
            | DjotTag::DescriptionDetails | DjotTag::DescriptionTerm | DjotTag::Caption
            | DjotTag::LinkDefinition => {
                self.skip = 1;
                assert(self.deep_view() =~= (DjotState { skip: 1, ..before }));
            },
            DjotTag::Strong | DjotTag::Emphasis | DjotTag::Verbatim | DjotTag::Superscript
            | DjotTag::Subscript | DjotTag::Insert | DjotTag::Delete | DjotTag::Link => {
                self.marks.set(tag, true, text);
                assert(self.deep_view() =~= (DjotState {
                    marks: set_mark(before.marks, tag, true, text@),
                    ..before
                }));
            },
            DjotTag::Section | DjotTag::Blockquote | DjotTag::Heading(_) | DjotTag::Paragraph
            | DjotTag::CodeBlock | DjotTag::Image => {
                self.open_block(tag, text, attrs, opts);
            },
            DjotTag::List(_) | DjotTag::ListItem | DjotTag::TaskListItem(_) | DjotTag::Table
            | DjotTag::TableRow(_) | DjotTag::TableCell | DjotTag::Footnote => {
                self.open_container(tag, text);
            },
            // A div, a span and a highlight keep their content and nothing else.
            DjotTag::Document | DjotTag::Div | DjotTag::Mark | DjotTag::Span => {},
        }
    }

    /// A construct ends.
    fn close(&mut self, tag: DjotTag)
        requires
            djot_footnote_within(old(self).deep_view()),
        ensures
            final(self).deep_view() == djot_close(old(self).deep_view(), tag),
            djot_footnote_within(final(self).deep_view()),
    {
        let ghost before = self.deep_view();
        match tag {
            DjotTag::Strong | DjotTag::Emphasis | DjotTag::Verbatim | DjotTag::Superscript
            | DjotTag::Subscript | DjotTag::Insert | DjotTag::Delete | DjotTag::Link => {
                self.marks.set(tag, false, String::new());
                assert(self.deep_view() =~= (DjotState {
                    marks: set_mark(before.marks, tag, false, Seq::empty()),
                    ..before
                }));
            },
            DjotTag::Blockquote | DjotTag::List(_) | DjotTag::ListItem | DjotTag::TaskListItem(_)
            | DjotTag::Heading(_) | DjotTag::Paragraph | DjotTag::CodeBlock => {
                self.close_block(tag);
            },
            DjotTag::Table | DjotTag::TableRow(_) | DjotTag::TableCell | DjotTag::Image
            | DjotTag::Footnote => {
                self.close_object(tag);
            },
            DjotTag::Document | DjotTag::Section | DjotTag::Div | DjotTag::Mark | DjotTag::Span
            | DjotTag::Math | DjotTag::RawBlock | DjotTag::RawInline | DjotTag::DescriptionList
            | DjotTag::DescriptionDetails | DjotTag::DescriptionTerm | DjotTag::Caption
            | DjotTag::LinkDefinition => {},
        }
    }

    /// An event without content of its own.
    fn atom(&mut self, atom: DjotAtom)
        ensures
            final(self).deep_view() == match atom_char(atom) {
                Some(c) => read_text(old(self).deep_view(), seq![c]),
                None => if atom is Hardbreak {
                    djot_break(old(self).deep_view())
                } else {
                    old(self).deep_view()
                },
            },
    {
        match atom {
            DjotAtom::LeftSingleQuote => self.character('\u{2018}'),
            DjotAtom::RightSingleQuote => self.character('\u{2019}'),
            DjotAtom::LeftDoubleQuote => self.character('\u{201C}'),
            DjotAtom::RightDoubleQuote => self.character('\u{201D}'),
            DjotAtom::Ellipsis => self.character('\u{2026}'),
            DjotAtom::EnDash => self.character('\u{2013}'),
            DjotAtom::EmDash => self.character('\u{2014}'),
            DjotAtom::NonBreakingSpace => self.character('\u{00A0}'),
            DjotAtom::Softbreak => self.character(' '),
            DjotAtom::Hardbreak => {
                if self.table.in_cell {
                    self.character(' ');
                } else if self.spans.len() > 0 {
                    // A hard break splits the paragraph into a new block.
                    let style = self.style.clone();
                    let mut block = self.take_item(style);
                    block.is_code_block = self.is_code_block;
                    block.code_language = self.code_language.clone();
                    self.push_block(block);
                }
            },
            DjotAtom::Other => {},
        }
    }

    /// The next event.
    fn step(&mut self, event: &DjotEvent, opts: &DjotImportOptions)
        requires
            djot_footnote_within(old(self).deep_view()),
        ensures
            final(self).deep_view() == djot_step(old(self).deep_view(), event.deep_view(), *opts),
            djot_footnote_within(final(self).deep_view()),
    {
        let ghost before = self.deep_view();
        if self.skip > 0 {
            match event {
                DjotEvent::Start(_, _, _) => {
                    if self.skip < u32::MAX {
                        self.skip = self.skip + 1;
                    }
                },
                DjotEvent::End(_) => {
                    self.skip = self.skip - 1;
                },
                _ => {},
            }
            assert(self.deep_view() =~= djot_step(before, event.deep_view(), *opts));
            return;
        }
        match event {
            DjotEvent::Start(tag, text, attrs) => {
                self.open(*tag, text.clone(), attrs, opts);
            },
            DjotEvent::End(tag) => {
                self.close(*tag);
            },
            DjotEvent::Str(text) => {
                self.text(text.as_str());
            },
            DjotEvent::FootnoteReference(label) => {
                let mut span = self.marks.span(String::new());
                span.footnote_ref = Some(label.clone());
                assert(span.deep_view() =~= (SpanModel {
                    footnote_ref: Some(label@),
                    ..marked_span(before.marks, Seq::empty())
                }));
                self.put(span);
            },
            DjotEvent::Atom(atom) => {
                self.atom(*atom);
            },
        }
    }

    /// What is left open when a document ends becomes its last block.
    fn finish(self) -> (elements: Vec<ParsedElement>)
        ensures
            elements.deep_view() == djot_rest(self.deep_view()),
    {
        let mut reader = self;
        if reader.spans.len() > 0 {
            let style = reader.style.clone();
            let mut block = reader.take_item(style);
            block.heading_level = reader.heading;
            block.is_code_block = reader.is_code_block;
            block.code_language = reader.code_language.take();
            reader.elements.push(ParsedElement::Block(block));
            assert(reader.elements.deep_view() =~= djot_rest(self.deep_view()));
        }
        reader.elements
    }
}

/// The elements of a document with these events.
pub fn read_djot(events: &Vec<DjotEvent>, options: &DjotImportOptions) -> (elements: Vec<
    ParsedElement,
>)
    ensures
        elements.deep_view() == djot_elements(events.deep_view(), *options),
        elements.len() > 0,
{
    let ghost all = events.deep_view();
    let mut reader = DjotReader::new();
    for i in 0..events.len()
        invariant
            all == events.deep_view(),
            reader.deep_view() == djot_after(all.take(i as int), *options),
            djot_footnote_within(reader.deep_view()),
    {
        proof {
            assert(all.take(i + 1).drop_last() =~= all.take(i as int));
            assert(all.take(i + 1).last() == events[i as int].deep_view());
        }
        reader.step(&events[i], options);
    }
    assert(all.take(all.len() as int) =~= all);
    let mut elements = reader.finish();
    if elements.is_empty() {
        elements.push(ParsedElement::Block(ParsedBlock::empty_paragraph()));
        assert(elements.deep_view() =~= or_empty_paragraph(Seq::empty()));
    }
    elements
}

// ─── The parser ──────────────────────────────────────────────────────

/// The highest level of a heading that the parser can count.
pub const MAX_HEADING_LEVEL: usize = 0xFFFF;

/// How many sections may be open at once. The parser counts what is open in sixteen
/// bits, containers and sections together.
pub const MAX_SECTIONS: usize = 60_000;

/// The level of the heading that a line may begin: the number of hashes behind its
/// front, with nothing or white space behind them. Zero where there is none.
pub open spec fn heading_level(line: Seq<char>) -> int {
    let start = front_of(line).end;
    let end = run_end(line, start, '#');
    if end > start && ends_or_white(line, end) {
        end - start
    } else {
        0
    }
}

/// The headings that lines may begin.
#[verifier::ext_equal]
pub struct Headings {
    pub highest: int,
    pub count: int,
}

/// The headings that lines may begin.
pub open spec fn headings_in(lines: Seq<Seq<char>>) -> Headings
    decreases lines.len(),
{
    if lines.len() == 0 {
        Headings { highest: 0, count: 0 }
    } else {
        let rest = headings_in(lines.drop_last());
        let level = heading_level(lines.last());
        if level > 0 {
            Headings { highest: larger(rest.highest, level), count: rest.count + 1 }
        } else {
            rest
        }
    }
}

/// Whether the parser can count the headings of a text: none has too high a level, and
/// no more sections than it can count are within one another, of which there are no
/// more than headings, nor than levels.
pub open spec fn headings_fit(text: Seq<char>) -> bool {
    let headings = headings_in(source_lines(text, 0));
    &&& headings.highest <= MAX_HEADING_LEVEL
    &&& headings.highest <= MAX_SECTIONS || headings.count <= MAX_SECTIONS
}

/// Whether the parser can count the headings of a text.
pub fn has_fitting_headings(text: &str) -> (fit: bool)
    ensures
        fit == headings_fit(text@),
{
    let whole = to_chars(text);
    let ghost all = text@;
    let ghost lines = source_lines(all, 0);
    let ghost mut done: Seq<Seq<char>> = Seq::empty();
    let mut highest: usize = 0;
    let mut count: usize = 0;
    let mut from: usize = 0;
    assert(done + source_lines(all, 0) =~= lines);
    while from < whole.len()
        invariant
            whole@ == all,
            all == text@,
            lines == source_lines(all, 0),
            from <= all.len(),
            done + source_lines(all, from as int) == lines,
            headings_in(done) == (Headings { highest: highest as int, count: count as int }),
            count <= from,
        decreases all.len() - from,
    {
        let end: usize = find_line_end(&whole, from);
        let line = part(whole.as_slice(), from, end);
        let ghost before = done;
        let ghost rest = if end < all.len() {
            source_lines(all, end + 1)
        } else {
            Seq::empty()
        };
        proof {
            done = before.push(line@);
            assert(done.drop_last() =~= before);
            assert(source_lines(all, from as int) =~= seq![line@] + rest);
            assert(done + rest =~= before + (seq![line@] + rest));
        }
        let start: usize = read_front(&line).end;
        let stop: usize = find_run_end(&line, start, '#');
        if stop > start && (stop == line.len() || is_ascii_white(line[stop])) {
            if highest < stop - start {
                highest = stop - start;
            }
            count = count + 1;
        }
        from = if end < whole.len() {
            end + 1
        } else {
            end
        };
    }
    assert(done + source_lines(all, from as int) =~= done);
    highest <= MAX_HEADING_LEVEL && (highest <= MAX_SECTIONS || count <= MAX_SECTIONS)
}

/// Whether the parser reads a text to its end: it can count the headings, and it has the
/// stack for the blocks and lines that it descends into.
pub open spec fn parser_bears(text: Seq<char>) -> bool {
    headings_fit(text) && !too_far(text)
}

/// Whether the parser reads a text to its end. On another text it panics, or it ends the
/// process on a small enough stack.
pub fn can_be_parsed(text: &str) -> (can: bool)
    ensures
        can == parser_bears(text@),
{
    has_fitting_headings(text) && !goes_too_far(text)
}

/// A construct, as jotdown tells it.
#[verifier::external_type_specification]
#[verifier::external_body]
pub struct ExContainer<'s>(Container<'s>);

/// The kind of a list, as jotdown tells it.
#[verifier::external_type_specification]
#[verifier::external_body]
pub struct ExListKind(ListKind);

/// An event, as jotdown tells it.
#[verifier::external_type_specification]
#[verifier::external_body]
pub struct ExEvent<'s>(Event<'s>);

/// How a `jotdown::ListKind` marks its items, variant by variant; nothing is
/// claimed of it beyond what [`djot_events`] names.
#[verifier::external_body]
fn list_of(kind: ListKind) -> DjotList {
    match kind {
        ListKind::Unordered(bullet) | ListKind::Task(bullet) => DjotList::Bullet(bullet.into()),
        ListKind::Ordered { numbering, style, .. } => DjotList::Ordered(
            match numbering {
                OrderedListNumbering::Decimal => DjotNumbering::Decimal,
                OrderedListNumbering::AlphaLower => DjotNumbering::AlphaLower,
                OrderedListNumbering::AlphaUpper => DjotNumbering::AlphaUpper,
                OrderedListNumbering::RomanLower => DjotNumbering::RomanLower,
                OrderedListNumbering::RomanUpper => DjotNumbering::RomanUpper,
            },
            delimiter_of(style),
        ),
    }
}

/// What stands around the numbers of a list, as jotdown tells it.
#[verifier::external_type_specification]
#[verifier::external_body]
pub struct ExOrderedListStyle(OrderedListStyle);

/// What stands around the numbers under a `jotdown::OrderedListStyle`, variant by
/// variant; nothing is claimed of it beyond what [`djot_events`] names.
#[verifier::external_body]
fn delimiter_of(style: OrderedListStyle) -> DjotDelimiter {
    match style {
        OrderedListStyle::Period => DjotDelimiter::Period,
        OrderedListStyle::Paren => DjotDelimiter::Paren,
        OrderedListStyle::ParenParen => DjotDelimiter::ParenParen,
    }
}

/// The construct that a `jotdown::Container` is, variant by variant; nothing is
/// claimed of it beyond what [`djot_events`] names.
#[verifier::external_body]
fn tag_of(container: &Container<'_>) -> DjotTag {
    match container {
        Container::List { kind, .. } => DjotTag::List(list_of(*kind)),
        Container::TaskListItem { checked } => DjotTag::TaskListItem(*checked),
        Container::Heading { level, .. } => DjotTag::Heading(*level),
        Container::TableRow { head } => DjotTag::TableRow(*head),
        Container::Blockquote => DjotTag::Blockquote,
        Container::ListItem => DjotTag::ListItem,
        Container::Paragraph => DjotTag::Paragraph,
        Container::CodeBlock { .. } => DjotTag::CodeBlock,
        Container::Table => DjotTag::Table,
        Container::TableCell { .. } => DjotTag::TableCell,
        Container::Footnote { .. } => DjotTag::Footnote,
        other => inline_tag_of(other),
    }
}

/// The inline construct that a `jotdown::Container` is, variant by variant;
/// nothing is claimed of it beyond what [`djot_events`] names.
#[verifier::external_body]
fn inline_tag_of(container: &Container<'_>) -> DjotTag {
    match container {
        Container::Strong => DjotTag::Strong,
        Container::Emphasis => DjotTag::Emphasis,
        Container::Verbatim => DjotTag::Verbatim,
        Container::Superscript => DjotTag::Superscript,
        Container::Subscript => DjotTag::Subscript,
        Container::Insert => DjotTag::Insert,
        Container::Delete => DjotTag::Delete,
        Container::Mark => DjotTag::Mark,
        Container::Span => DjotTag::Span,
        Container::Link(..) => DjotTag::Link,
        Container::Image(..) => DjotTag::Image,
        other => other_tag_of(other),
    }
}

/// The construct without a counterpart in the document model that a
/// `jotdown::Container` is, variant by variant; nothing is claimed of it beyond
/// what [`djot_events`] names.
#[verifier::external_body]
fn other_tag_of(container: &Container<'_>) -> DjotTag {
    match container {
        Container::Section { .. } => DjotTag::Section,
        Container::Div { .. } => DjotTag::Div,
        Container::DescriptionList => DjotTag::DescriptionList,
        Container::DescriptionDetails => DjotTag::DescriptionDetails,
        Container::DescriptionTerm => DjotTag::DescriptionTerm,
        Container::Caption => DjotTag::Caption,
        Container::LinkDefinition { .. } => DjotTag::LinkDefinition,
        Container::RawBlock { .. } => DjotTag::RawBlock,
        Container::Math { .. } => DjotTag::Math,
        Container::RawInline { .. } => DjotTag::RawInline,
        _ => DjotTag::Document,
    }
}

/// The text that a `jotdown::Container` carries, field by field; nothing is
/// claimed of it beyond what [`djot_events`] names.
#[verifier::external_body]
fn text_of(container: &Container<'_>) -> String {
    match container {
        Container::Link(target, _) => target.to_string(),
        Container::Image(source, _) => source.to_string(),
        Container::Footnote { label } => label.to_string(),
        Container::CodeBlock { language } => language.to_string(),
        _ => String::new(),
    }
}

/// The atom that a `jotdown::Event` without content is, variant by variant;
/// nothing is claimed of it beyond what [`djot_events`] names.
#[verifier::external_body]
fn atom_of(event: Event<'_>) -> DjotAtom {
    match event {
        Event::LeftSingleQuote => DjotAtom::LeftSingleQuote,
        Event::RightSingleQuote => DjotAtom::RightSingleQuote,
        Event::LeftDoubleQuote => DjotAtom::LeftDoubleQuote,
        Event::RightDoubleQuote => DjotAtom::RightDoubleQuote,
        Event::Ellipsis => DjotAtom::Ellipsis,
        Event::EnDash => DjotAtom::EnDash,
        Event::EmDash => DjotAtom::EmDash,
        Event::NonBreakingSpace => DjotAtom::NonBreakingSpace,
        Event::Softbreak => DjotAtom::Softbreak,
        Event::Hardbreak => DjotAtom::Hardbreak,
        _ => DjotAtom::Other,
    }
}

/// The events that `jotdown::Parser` gives for a text.
pub uninterp spec fn djot_event_stream(source: Seq<char>) -> Seq<DjotEventModel>;

/// Calls `jotdown::Parser::new` and collects its events. The attributes of a
/// construct are those of `jotdown::Attributes::unique_pairs`, which gives each
/// key once, with the value that `get_value` gives for it. The contract claims
/// that the events are a function of the text, named by [`djot_event_stream`];
/// and that a text of one-line paragraphs with an empty line between each two,
/// in which nothing is markup (see
/// [`crate::parser_tools::djot_plain::plain_line`]), gives the start and the end of
/// the document and of each paragraph, in it the characters of the line in one or
/// more strings, and an escape for each backslash, and blank lines between the
/// paragraphs. White space around a line is dropped, and a line of white space alone is
/// a blank one (see [`tells_prose`]).
///
/// It claims as well that such lines, in which only what can start inline markup has to
/// have a backslash, tell no more text than they have (see [`tells_no_more`]). The first
/// character that `IdentifiedBlock::new` looks at is then none of ``{|[*`~(``, so there is
/// no table, footnote, link definition, code block, task or attribute; a blank line ends
/// every paragraph and heading, so no line adds to the one before; `parse_leaf` trims the
/// white space, and the marker of a container is no part of its text. Within a line
/// `Lexer::token` gives no delimiter but quotes, so `inline::Parser` gives strings, escapes,
/// symbols, and one quote, dash or ellipsis for one or more characters.
///
/// It panics on a heading whose level is more than sixteen bits hold
/// (`TreeParser::parse_block`), and on a list where more containers and sections are
/// open than they hold (`TreeParser::parse_container`). It exhausts the stack where
/// `parse_block` and `parse_container` call each other too often, once per container,
/// or `Parser::block` and `Parser::next_span`, once per line of a paragraph in which
/// something may still be closed. What is required leaves all of these out (see
/// [`crate::parser_tools::djot_descent`] for the last two).
#[verifier::external_body]
fn djot_events(source: &str) -> (events: Vec<DjotEvent>)
    requires
        parser_bears(source@),
    ensures
        events.deep_view() == djot_event_stream(source@),
        tells_prose(source@, events.deep_view()),
        tells_no_more(source@, events.deep_view()),
{
    Parser::new(source).map(|event| match event {
        Event::Start(container, attrs) => DjotEvent::Start(
            tag_of(&container),
            text_of(&container),
            attrs.unique_pairs().map(|(key, value)| (key.to_string(), value.to_string())).collect(),
        ),
        Event::End(container) => DjotEvent::End(tag_of(&container)),
        Event::Str(text) => DjotEvent::Str(text.to_string()),
        Event::FootnoteReference(label) => DjotEvent::FootnoteReference(label.to_string()),
        other => DjotEvent::Atom(atom_of(other)),
    }).collect()
}

/// A document as one paragraph that holds its source.
pub open spec fn verbatim_paragraph(source: Seq<char>) -> Seq<ElementModel> {
    seq![ElementModel::Block(paragraph(seq![SpanModel { text: source, ..empty_span() }]))]
}

/// The elements of a Djot document. One that nests too deep is a single plain
/// paragraph.
pub open spec fn djot_document(
    source: Seq<char>,
    events: Seq<DjotEventModel>,
    opts: DjotImportOptions,
) -> Seq<ElementModel> {
    if too_deep(source) {
        verbatim_paragraph(source)
    } else {
        djot_elements(events, opts)
    }
}

/// Parse djot source into [`ParsedElement`]s.
///
/// Constructs the document model cannot represent are dropped, and their text
/// content is discarded so it never leaks into the document: math, raw
/// blocks/inline, thematic breaks, description lists, captions, symbols and
/// link-reference definitions. Fenced divs, spans and highlights keep their
/// content. Smart-punctuation events are normalised to their canonical Unicode
/// characters.
///
/// Standalone paragraphs and headings additionally carry the optional
/// block-style attributes selected by `options`, read from djot `{key=value}`
/// block attributes (see [`DjotImportOptions`]). List items, code blocks and
/// table cells normalise their block styling away.
///
/// Source that nests too deep comes back as one plain paragraph that holds it
/// verbatim (see [`crate::parser_tools::djot_depth`]). Other source has to be such that
/// the parser reads it to its end, which [`can_be_parsed`] tells.
///
/// Known model limitations (normalised, not preserved on round-trip):
/// ordered-list start number, table column alignment, and list tight/loose.
pub fn parse_djot(djot: &str, options: &DjotImportOptions) -> (elements: Vec<ParsedElement>)
    requires
        too_deep(djot@) || parser_bears(djot@),
    ensures
        elements.deep_view() == djot_document(djot@, djot_event_stream(djot@), *options),
        elements.len() > 0,
        too_deep(djot@) || tells_prose(djot@, djot_event_stream(djot@)),
        too_deep(djot@) || tells_no_more(djot@, djot_event_stream(djot@)),
{
    if is_too_deep(djot) {
        let mut span = ParsedSpan::default();
        span.text = djot.to_string();
        let spans = vec![span];
        assert(spans.deep_view() =~= seq![SpanModel { text: djot@, ..empty_span() }]);
        let elements = vec![ParsedElement::Block(ParsedBlock::paragraph(spans))];
        assert(elements.deep_view() =~= verbatim_paragraph(djot@));
        return elements;
    }
    let events = djot_events(djot);
    read_djot(&events, options)
}

// ─── Cheap plain-text extraction ─────────────────────────────────────

/// The `U+FFFC OBJECT REPLACEMENT CHARACTER` that stands for a table in the document's
/// text.
///
/// A table is not prose, but it *occupies a position* in the flow: this single
/// sentinel, then the cells as ordinary blocks. Anything reconstructing the text a
/// search runs against has to reproduce it.
pub const TABLE_ANCHOR: &'static str = "\u{FFFC}";

/// One span's contribution to the addressable text.
///
/// An inline object carries no prose but **does** occupy one `U+FFFC` in the
/// document, so it has to occupy one here too.
pub open spec fn span_text(span: SpanModel) -> Seq<char> {
    if span.image is Some || span.footnote_ref is Some {
        seq!['\u{FFFC}']
    } else {
        span.text
    }
}

/// The texts of spans, one after the other.
pub open spec fn spans_text(spans: Seq<SpanModel>) -> Seq<char>
    decreases spans.len(),
{
    if spans.len() == 0 {
        Seq::empty()
    } else {
        spans_text(spans.drop_last()) + span_text(spans.last())
    }
}

/// The lines of the rows of a table, one per cell.
pub open spec fn rows_lines(rows: Seq<Seq<Seq<SpanModel>>>) -> Seq<Seq<char>>
    decreases rows.len(),
{
    if rows.len() == 0 {
        Seq::empty()
    } else {
        rows_lines(rows.drop_last()) + rows.last().map_values(
            |cell: Seq<SpanModel>| spans_text(cell),
        )
    }
}

/// The lines of an element: a block is one; a table is its anchor and one per
/// cell; a footnote definition is out of the flow.
pub open spec fn element_lines(element: ElementModel) -> Seq<Seq<char>> {
    match element {
        ElementModel::Block(block) => seq![spans_text(block.spans)],
        ElementModel::Table(table) => seq![seq!['\u{FFFC}']] + rows_lines(table.rows),
        ElementModel::FootnoteDefinition { .. } => Seq::empty(),
    }
}

/// The lines of a document.
pub open spec fn document_lines(elements: Seq<ElementModel>) -> Seq<Seq<char>>
    decreases elements.len(),
{
    if elements.len() == 0 {
        Seq::empty()
    } else {
        document_lines(elements.drop_last()) + element_lines(elements.last())
    }
}

/// Lines, with a newline between each two.
pub open spec fn joined(lines: Seq<Seq<char>>) -> Seq<char>
    decreases lines.len(),
{
    if lines.len() == 0 {
        Seq::empty()
    } else if lines.len() == 1 {
        lines[0]
    } else {
        joined(lines.drop_last()) + seq!['\n'] + lines.last()
    }
}

/// Appends what a span contributes to the addressable text.
fn span_prose(span: &ParsedSpan, out: &mut String)
    ensures
        final(out)@ == old(out)@ + span_text(span.deep_view()),
{
    if span.image.is_some() || span.footnote_ref.is_some() {
        out.push('\u{FFFC}');
        assert(out@ =~= old(out)@ + seq!['\u{FFFC}']);
        return;
    }
    out.push_str(span.text.as_str());
}

/// The texts of spans, one after the other.
fn spans_prose(spans: &Vec<ParsedSpan>) -> (prose: String)
    ensures
        prose@ == spans_text(spans.deep_view()),
{
    let ghost all = spans.deep_view();
    let mut prose = String::new();
    for i in 0..spans.len()
        invariant
            all == spans.deep_view(),
            prose@ == spans_text(all.take(i as int)),
    {
        proof {
            assert(all.take(i + 1).drop_last() =~= all.take(i as int));
            assert(all.take(i + 1).last() == spans[i as int].deep_view());
        }
        span_prose(&spans[i], &mut prose);
    }
    assert(all.take(all.len() as int) =~= all);
    prose
}

/// The prose of a block.
fn block_prose(block: &ParsedBlock) -> (prose: String)
    ensures
        prose@ == spans_text(block.deep_view().spans),
{
    spans_prose(&block.spans)
}

/// The prose of a table cell.
fn cell_prose(cell: &ParsedTableCell) -> (prose: String)
    ensures
        prose@ == spans_text(cell.deep_view()),
{
    spans_prose(&cell.spans)
}

/// A text under construction, line by line.
struct Lines {
    out: String,
    /// Whether no line was added yet. An EMPTY line is still a line, so this is
    /// not the same as the text being empty.
    first: bool,
    lines: Ghost<Seq<Seq<char>>>,
}

impl Lines {
    spec fn ok(&self) -> bool {
        &&& self.out@ == joined(self.lines@)
        &&& self.first == (self.lines@.len() == 0)
    }

    fn push(&mut self, text: &str)
        requires
            old(self).ok(),
        ensures
            final(self).ok(),
            final(self).lines@ == old(self).lines@.push(text@),
    {
        let ghost before = self.lines@;
        proof {
            assert(before.push(text@).drop_last() =~= before);
        }
        if self.first {
            self.first = false;
        } else {
            self.out.push('\n');
            assert(self.out@ =~= joined(before) + seq!['\n']);
        }
        self.out.push_str(text);
        self.lines = Ghost(before.push(text@));
        assert(self.out@ =~= joined(self.lines@));
    }
}

/// Adds the cells of a table, one line each.
fn push_cells(rows: &Vec<Vec<ParsedTableCell>>, text: &mut Lines)
    requires
        old(text).ok(),
    ensures
        final(text).ok(),
        final(text).lines@ == old(text).lines@ + rows_lines(rows.deep_view()),
{
    let ghost start = text.lines@;
    let ghost all = rows.deep_view();
    assert(start + rows_lines(all.take(0)) =~= start);
    for r in 0..rows.len()
        invariant
            all == rows.deep_view(),
            text.ok(),
            text.lines@ == start + rows_lines(all.take(r as int)),
    {
        let row = &rows[r];
        let ghost before = text.lines@;
        let ghost cells = row.deep_view().map_values(|cell: Seq<SpanModel>| spans_text(cell));
        assert(before + cells.take(0) =~= before);
        for c in 0..row.len()
            invariant
                text.ok(),
                cells == row.deep_view().map_values(|cell: Seq<SpanModel>| spans_text(cell)),
                text.lines@ == before + cells.take(c as int),
        {
            let prose = cell_prose(&row[c]);
            assert(prose@ == cells[c as int]);
            text.push(prose.as_str());
            assert(text.lines@ =~= before + cells.take(c + 1));
        }
        proof {
            assert(cells.take(cells.len() as int) =~= cells);
            assert(all.take(r + 1).drop_last() =~= all.take(r as int));
            assert(all.take(r + 1).last() == row.deep_view());
            assert(text.lines@ =~= start + rows_lines(all.take(r + 1)));
        }
    }
    assert(all.take(all.len() as int) =~= all);
}

/// The text of a document's elements, as a search runs against it.
pub fn elements_to_plain_text(elements: &Vec<ParsedElement>) -> (text: String)
    ensures
        text@ == joined(document_lines(elements.deep_view())),
{
    let ghost all = elements.deep_view();
    let mut text = Lines { out: String::new(), first: true, lines: Ghost(Seq::empty()) };
    assert(text.out@ =~= joined(text.lines@));
    for i in 0..elements.len()
        invariant
            all == elements.deep_view(),
            text.ok(),
            text.lines@ == document_lines(all.take(i as int)),
    {
        let ghost before = text.lines@;
        proof {
            assert(all.take(i + 1).drop_last() =~= all.take(i as int));
            assert(all.take(i + 1).last() == elements[i as int].deep_view());
        }
        match &elements[i] {
            ParsedElement::Block(block) => {
                let prose = block_prose(block);
                text.push(prose.as_str());
                assert(text.lines@ =~= before + seq![prose@]);
            },
            // A note's body is out of flow: it is not part of the addressable
            // text.
            ParsedElement::FootnoteDefinition { .. } => {
                assert(before + Seq::<Seq<char>>::empty() =~= before);
            },
            ParsedElement::Table(table) => {
                proof {
                    reveal_strlit("\u{FFFC}");
                    assert(TABLE_ANCHOR@ =~= seq!['\u{FFFC}']);
                }
                text.push(TABLE_ANCHOR);
                push_cells(&table.rows, &mut text);
                assert(text.lines@ =~= before + (seq![seq!['\u{FFFC}']] + rows_lines(
                    table.rows.deep_view(),
                )));
            },
        }
    }
    assert(all.take(all.len() as int) =~= all);
    text.out
}

/// The text of a Djot document, as a search runs against it.
pub open spec fn djot_plain_text(
    source: Seq<char>,
    events: Seq<DjotEventModel>,
    opts: DjotImportOptions,
) -> Seq<char> {
    joined(document_lines(djot_document(source, events, opts)))
}

/// The prose of a Djot document: each block's spans concatenated, blocks joined
/// by a single `\n`, and a table announced by its [`TABLE_ANCHOR`] sentinel. An
/// offset found here is an offset the document agrees with.
///
/// Searching the Djot *source* instead would be wrong: the source is markup.
pub fn djot_to_plain_text(djot: &str, options: &DjotImportOptions) -> (text: String)
    requires
        too_deep(djot@) || parser_bears(djot@),
    ensures
        text@ == djot_plain_text(djot@, djot_event_stream(djot@), *options),
        forall|lines: Seq<MarkedLine>|
            !too_deep(djot@) && plain_lines(lines) && djot@ == #[trigger] spelled_paragraphs(lines)
                ==> text@ == joined(kept_texts(lines)),
        forall|lines: Seq<MarkedLine>|
            !too_deep(djot@) && escaped_lines(lines) && djot@ == #[trigger] spelled_paragraphs(
                lines,
            ) ==> text@.len() <= joined(kept_texts(lines)).len(),
{
    let elements = parse_djot(djot, options);
    assert forall|lines: Seq<MarkedLine>|
        !too_deep(djot@) && plain_lines(lines) && djot@ == #[trigger] spelled_paragraphs(
            lines,
        ) implies djot_plain_text(djot@, djot_event_stream(djot@), *options) == joined(
        kept_texts(lines),
    ) by {
        told_paragraphs_read_as_lines(
            djot@,
            djot_event_stream(djot@),
            kept_texts(lines),
            *options,
        );
    }
    assert forall|lines: Seq<MarkedLine>|
        !too_deep(djot@) && escaped_lines(lines) && djot@ == #[trigger] spelled_paragraphs(
            lines,
        ) implies djot_plain_text(djot@, djot_event_stream(djot@), *options).len() <= joined(
        kept_texts(lines),
    ).len() by {
        told_text_is_not_longer(djot@, djot_event_stream(djot@), *options);
    }
    elements_to_plain_text(&elements)
}

} // verus!
