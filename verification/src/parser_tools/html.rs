//! The HTML reader.
use ego_tree::iter::Edge;
use scraper::{Html, Node};
use vstd::prelude::*;

use crate::chars::{
    after_prefix, begins_with, lowered, number, parse_number, part, spells, split_words, to_lower,
    trim, trimmed, words,
};
use crate::entities::{ListStyle, TextDirection};
use crate::models::group_deep_view;
use crate::parser_tools::content_parser::{
    empty_span, flattened, or_empty_paragraph, paragraph, BlockModel, ElementModel, ParsedBlock,
    ParsedElement, ParsedImage, ParsedSpan, ParsedTable, ParsedTableCell, PictureModel, SpanModel,
    TableModel,
};
use crate::text::{from_chars, same_text, to_chars};

verus! {

broadcast use group_deep_view;

// ─── Inline styles ───────────────────────────────────────────────────

/// What a [`BlockStyles`] holds.
#[verifier::ext_equal]
pub struct CssModel {
    pub line_height: Option<i64>,
    pub non_breakable_lines: Option<bool>,
    pub page_break_before: Option<bool>,
    pub direction: Option<TextDirection>,
    pub background_color: Option<Seq<char>>,
}

/// No style at all.
pub open spec fn no_css() -> CssModel {
    CssModel {
        line_height: None,
        non_breakable_lines: None,
        page_break_before: None,
        direction: None,
        background_color: None,
    }
}

/// Parsed CSS block-level styles from an inline `style` attribute.
#[derive(Debug)]
pub struct BlockStyles {
    pub line_height: Option<i64>,
    pub non_breakable_lines: Option<bool>,
    pub page_break_before: Option<bool>,
    pub direction: Option<TextDirection>,
    pub background_color: Option<String>,
}

impl DeepView for BlockStyles {
    type V = CssModel;

    open spec fn deep_view(&self) -> CssModel {
        CssModel {
            line_height: self.line_height,
            non_breakable_lines: self.non_breakable_lines,
            page_break_before: self.page_break_before,
            direction: self.direction,
            background_color: self.background_color.deep_view(),
        }
    }
}

impl Default for BlockStyles {
    fn default() -> (styles: Self)
        ensures
            styles.deep_view() == no_css(),
    {
        BlockStyles {
            line_height: None,
            non_breakable_lines: None,
            page_break_before: None,
            direction: None,
            background_color: None,
        }
    }
}

/// Whether a caller's reading of a line height is a function of its text.
pub open spec fn reads_text<F: Fn(&str) -> Option<i64>>(measure: F) -> bool {
    &&& forall|text: &str| #[trigger] call_requires(measure, (text,))
    &&& exists|reading: spec_fn(Seq<char>) -> Option<i64>| is_reading(measure, reading)
}

/// Whether a caller reads line heights as a function of the text does.
pub open spec fn is_reading<F: Fn(&str) -> Option<i64>>(
    measure: F,
    reading: spec_fn(Seq<char>) -> Option<i64>,
) -> bool {
    forall|text: &str, value: Option<i64>|
        #![trigger call_ensures(measure, (text,), value)]
        call_ensures(measure, (text,), value) ==> value == reading(text@)
}

/// The function of the text by which a caller reads line heights.
pub open spec fn reading_of<F: Fn(&str) -> Option<i64>>(measure: F) -> spec_fn(
    Seq<char>,
) -> Option<i64> {
    choose|reading: spec_fn(Seq<char>) -> Option<i64>| is_reading(measure, reading)
}

/// The first position of a character from `from` on, or the end.
pub open spec fn next_char(text: Seq<char>, from: int, c: char) -> int
    decreases text.len() - from,
{
    if from < 0 || from >= text.len() {
        text.len() as int
    } else if text[from] == c {
        from
    } else {
        next_char(text, from + 1, c)
    }
}

/// Whether a word asks for a page break, forbids one, or says neither.
pub open spec fn break_word(word: Seq<char>) -> Option<bool> {
    if word == "page"@ || word == "always"@ || word == "left"@ || word == "right"@ || word
        == "recto"@ || word == "verso"@ {
        Some(true)
    } else if word == "avoid"@ || word == "auto"@ {
        Some(false)
    } else {
        None
    }
}

/// Styles after one declaration: a property, in any case, and its value.
pub open spec fn css_declaration(
    css: CssModel,
    property: Seq<char>,
    value: Seq<char>,
    reading: spec_fn(Seq<char>) -> Option<i64>,
) -> CssModel {
    if property == "line-height"@ {
        match reading(value) {
            Some(height) => CssModel { line_height: Some(height), ..css },
            None => css,
        }
    } else if property == "white-space"@ {
        if value == "pre"@ || value == "nowrap"@ || value == "pre-wrap"@ {
            CssModel { non_breakable_lines: Some(true), ..css }
        } else {
            css
        }
    } else if property == "break-before"@ || property == "page-break-before"@ {
        CssModel { page_break_before: break_word(lowered(value)), ..css }
    } else if property == "direction"@ {
        if lowered(value) == "rtl"@ {
            CssModel { direction: Some(TextDirection::RightToLeft), ..css }
        } else if lowered(value) == "ltr"@ {
            CssModel { direction: Some(TextDirection::LeftToRight), ..css }
        } else {
            css
        }
    } else if property == "background-color"@ || property == "background"@ {
        CssModel { background_color: Some(value), ..css }
    } else {
        css
    }
}

/// Styles after what stands between two semicolons.
pub open spec fn css_part(
    css: CssModel,
    text: Seq<char>,
    reading: spec_fn(Seq<char>) -> Option<i64>,
) -> CssModel {
    let declaration = trim(text);
    let colon = next_char(declaration, 0, ':');
    if 0 <= colon < declaration.len() {
        css_declaration(
            css,
            lowered(trim(declaration.take(colon))),
            trim(declaration.skip(colon + 1)),
            reading,
        )
    } else {
        css
    }
}

/// Styles after the declarations of a style attribute from `from` on.
pub open spec fn css_from(
    style: Seq<char>,
    from: int,
    css: CssModel,
    reading: spec_fn(Seq<char>) -> Option<i64>,
) -> CssModel
    decreases style.len() - from,
{
    let end = next_char(style, from, ';');
    if 0 <= from <= end < style.len() {
        css_from(style, end + 1, css_part(css, style.subrange(from, end), reading), reading)
    } else if 0 <= from <= style.len() {
        css_part(css, style.skip(from), reading)
    } else {
        css
    }
}

/// The styles that a style attribute declares.
pub open spec fn css_of(style: Seq<char>, reading: spec_fn(Seq<char>) -> Option<i64>) -> CssModel {
    css_from(style, 0, no_css(), reading)
}

/// The first position of a character from `from` on, or the end.
fn find_next(text: &[char], from: usize, c: char) -> (at: usize)
    requires
        from <= text@.len(),
    ensures
        at == next_char(text@, from as int, c),
        from <= at <= text@.len(),
{
    let mut at: usize = from;
    while at < text.len() && text[at] != c
        invariant
            from <= at <= text@.len(),
            next_char(text@, from as int, c) == next_char(text@, at as int, c),
        decreases text@.len() - at,
    {
        at += 1;
    }
    at
}

/// Whether characters spell one of three words.
fn spells_one_of(chars: &[char], a: &str, b: &str, c: &str) -> (any: bool)
    ensures
        any == (chars@ == a@ || chars@ == b@ || chars@ == c@),
{
    spells(chars, a) || spells(chars, b) || spells(chars, c)
}

/// One declaration of a style attribute.
fn declare<F: Fn(&str) -> Option<i64> + Copy>(
    styles: &mut BlockStyles,
    property: &[char],
    value: &[char],
    measure: F,
)
    requires
        reads_text(measure),
    ensures
        final(styles).deep_view() == css_declaration(
            old(styles).deep_view(),
            property@,
            value@,
            reading_of(measure),
        ),
{
    if spells(property, "line-height") {
        let text = from_chars(value);
        let height = measure(text.as_str());
        proof {
            assert(is_reading(measure, reading_of(measure)));
        }
        if height.is_some() {
            styles.line_height = height;
        }
    } else if spells(property, "white-space") {
        if spells_one_of(value, "pre", "nowrap", "pre-wrap") {
            styles.non_breakable_lines = Some(true);
        }
    } else if spells(property, "break-before") || spells(property, "page-break-before") {
        let word = to_lower(value);
        let word = word.as_slice();
        styles.page_break_before = if spells_one_of(word, "page", "always", "left") || spells_one_of(
            word,
            "right",
            "recto",
            "verso",
        ) {
            Some(true)
        } else if spells(word, "avoid") || spells(word, "auto") {
            Some(false)
        } else {
            None
        };
    } else if spells(property, "direction") {
        let word = to_lower(value);
        if spells(word.as_slice(), "rtl") {
            styles.direction = Some(TextDirection::RightToLeft);
        } else if spells(word.as_slice(), "ltr") {
            styles.direction = Some(TextDirection::LeftToRight);
        }
    } else if spells(property, "background-color") || spells(property, "background") {
        styles.background_color = Some(from_chars(value));
    }
}

/// What stands between two semicolons of a style attribute.
fn declare_part<F: Fn(&str) -> Option<i64> + Copy>(
    styles: &mut BlockStyles,
    text: &[char],
    measure: F,
)
    requires
        reads_text(measure),
    ensures
        final(styles).deep_view() == css_part(
            old(styles).deep_view(),
            text@,
            reading_of(measure),
        ),
{
    let declaration = trimmed(text);
    let colon: usize = find_next(declaration.as_slice(), 0, ':');
    if colon < declaration.len() {
        let before = part(declaration.as_slice(), 0, colon);
        let behind = part(declaration.as_slice(), colon + 1, declaration.len());
        assert(before@ =~= declaration@.take(colon as int));
        assert(behind@ =~= declaration@.skip(colon + 1));
        let property = to_lower(trimmed(before.as_slice()).as_slice());
        let value = trimmed(behind.as_slice());
        declare(styles, property.as_slice(), value.as_slice(), measure);
    }
}

/// Parse relevant CSS properties from an inline style string.
/// Handles: line-height, white-space, break-before/page-break-before, direction,
/// background-color. `measure` reads the text of a line height into thousandths
/// of a line.
pub fn parse_block_styles<F: Fn(&str) -> Option<i64> + Copy>(style: &str, measure: F) -> (styles:
    BlockStyles)
    requires
        reads_text(measure),
    ensures
        styles.deep_view() == css_of(style@, reading_of(measure)),
{
    let text = to_chars(style);
    let ghost reading = reading_of(measure);
    let mut styles = BlockStyles::default();
    let mut from: usize = 0;
    loop
        invariant
            text@ == style@,
            reads_text(measure),
            reading == reading_of(measure),
            from <= text@.len(),
            css_of(style@, reading) == css_from(
                style@,
                from as int,
                styles.deep_view(),
                reading,
            ),
        ensures
            styles.deep_view() == css_of(style@, reading),
        decreases text@.len() - from,
    {
        let end: usize = find_next(text.as_slice(), from, ';');
        let piece = part(text.as_slice(), from, end);
        if end == text.len() {
            assert(piece@ =~= style@.skip(from as int));
            declare_part(&mut styles, piece.as_slice(), measure);
            break ;
        }
        declare_part(&mut styles, piece.as_slice(), measure);
        from = end + 1;
    }
    styles
}

// ─── The tree ────────────────────────────────────────────────────────

/// An attribute of an element: its namespace, which is empty for HTML's own
/// attributes, its name and its value.
pub type HtmlAttr = (String, String, String);

/// What a node of a document is.
#[derive(Debug, PartialEq, Eq)]
pub enum HtmlValue {
    Element(String, Vec<HtmlAttr>),
    Text(String),
    /// A comment, a doctype and the like.
    Other,
}

/// What an [`HtmlValue`] says.
pub enum ValueModel {
    Element(Seq<char>, Seq<(Seq<char>, Seq<char>, Seq<char>)>),
    Text(Seq<char>),
    Other,
}

impl DeepView for HtmlValue {
    type V = ValueModel;

    open spec fn deep_view(&self) -> ValueModel {
        match *self {
            HtmlValue::Element(name, attrs) => ValueModel::Element(name@, attrs.deep_view()),
            HtmlValue::Text(text) => ValueModel::Text(text@),
            HtmlValue::Other => ValueModel::Other,
        }
    }
}

/// One step of a walk through a document: into a node, or out of the last one
/// that was entered.
#[derive(Debug, PartialEq, Eq)]
pub enum HtmlEdge {
    Open(HtmlValue),
    Close,
}

/// What an [`HtmlEdge`] says.
pub enum EdgeModel {
    Open(ValueModel),
    Close,
}

impl DeepView for HtmlEdge {
    type V = EdgeModel;

    open spec fn deep_view(&self) -> EdgeModel {
        match *self {
            HtmlEdge::Open(value) => EdgeModel::Open(value.deep_view()),
            HtmlEdge::Close => EdgeModel::Close,
        }
    }
}

/// A node of a tree: what it is, and where its children stand.
pub struct NodeModel {
    pub value: ValueModel,
    pub children: Seq<int>,
}

/// A tree under construction: its nodes, and those that are entered.
pub struct GrowModel {
    pub nodes: Seq<NodeModel>,
    pub entered: Seq<int>,
}

/// The nodes with one more child for one of them.
pub open spec fn with_child(nodes: Seq<NodeModel>, parent: int, child: int) -> Seq<NodeModel> {
    nodes.update(
        parent,
        NodeModel { children: nodes[parent].children.push(child), ..nodes[parent] },
    )
}

/// The tree after one more step.
pub open spec fn grow(g: GrowModel, edge: EdgeModel) -> GrowModel {
    match edge {
        EdgeModel::Open(value) => {
            let id = g.nodes.len() as int;
            let leaf = NodeModel { value, children: Seq::empty() };
            let nodes = if g.entered.len() > 0 {
                with_child(g.nodes, g.entered.last(), id)
            } else {
                g.nodes
            };
            GrowModel { nodes: nodes.push(leaf), entered: g.entered.push(id) }
        },
        EdgeModel::Close => GrowModel {
            entered: if g.entered.len() > 0 {
                g.entered.drop_last()
            } else {
                g.entered
            },
            ..g
        },
    }
}

/// The tree after steps.
pub open spec fn grown(edges: Seq<EdgeModel>) -> GrowModel
    decreases edges.len(),
{
    if edges.len() == 0 {
        GrowModel { nodes: Seq::empty(), entered: Seq::empty() }
    } else {
        grow(grown(edges.drop_last()), edges.last())
    }
}

/// The tree that a walk goes through. Its first node is the root.
pub open spec fn tree_of(edges: Seq<EdgeModel>) -> Seq<NodeModel> {
    grown(edges).nodes
}

/// Whether the children of each node are nodes behind it.
pub open spec fn is_tree(nodes: Seq<NodeModel>) -> bool {
    forall|i: int, k: int|
        0 <= i < nodes.len() && 0 <= k < nodes[i].children.len() ==> i
            < #[trigger] nodes[i].children[k] < nodes.len()
}

/// A node of a tree: what it is, and where its children stand.
struct HtmlNode {
    value: HtmlValue,
    children: Vec<usize>,
}

impl DeepView for HtmlNode {
    type V = NodeModel;

    closed spec fn deep_view(&self) -> NodeModel {
        NodeModel {
            value: self.value.deep_view(),
            children: self.children@.map_values(|child: usize| child as int),
        }
    }
}

impl HtmlValue {
    /// A copy of a node's value.
    fn copy(&self) -> (copy: Self)
        ensures
            copy.deep_view() == self.deep_view(),
    {
        match self {
            HtmlValue::Element(name, attrs) => {
                let mut copies: Vec<HtmlAttr> = Vec::new();
                let ghost all = attrs.deep_view();
                for i in 0..attrs.len()
                    invariant
                        all == attrs.deep_view(),
                        copies.deep_view() == all.take(i as int),
                {
                    let attr = &attrs[i];
                    copies.push((attr.0.clone(), attr.1.clone(), attr.2.clone()));
                    assert(all[i as int] == attr.deep_view());
                    assert(all.take(i + 1) =~= all.take(i as int).push(all[i as int]));
                }
                assert(all.take(all.len() as int) =~= all);
                HtmlValue::Element(name.clone(), copies)
            },
            HtmlValue::Text(text) => HtmlValue::Text(text.clone()),
            HtmlValue::Other => HtmlValue::Other,
        }
    }
}

/// The tree that a walk goes through.
fn build_tree(edges: &Vec<HtmlEdge>) -> (nodes: Vec<HtmlNode>)
    ensures
        nodes.deep_view() == tree_of(edges.deep_view()),
        is_tree(nodes.deep_view()),
{
    let ghost all = edges.deep_view();
    let mut nodes: Vec<HtmlNode> = Vec::new();
    let mut entered: Vec<usize> = Vec::new();
    assert(entered@.map_values(|id: usize| id as int) =~= Seq::<int>::empty());
    for i in 0..edges.len()
        invariant
            all == edges.deep_view(),
            nodes.deep_view() == grown(all.take(i as int)).nodes,
            entered@.map_values(|id: usize| id as int) == grown(all.take(i as int)).entered,
            forall|k: int| 0 <= k < entered@.len() ==> #[trigger] entered@[k] < nodes@.len(),
            is_tree(nodes.deep_view()),
    {
        let ghost before = grown(all.take(i as int));
        proof {
            assert(all.take(i + 1).drop_last() =~= all.take(i as int));
            assert(all.take(i + 1).last() == edges[i as int].deep_view());
        }
        match &edges[i] {
            HtmlEdge::Open(value) => {
                let id: usize = nodes.len();
                if entered.len() > 0 {
                    let parent: usize = entered[entered.len() - 1];
                    proof {
                        assert(before.entered.last() == parent);
                    }
                    let ghost kids = nodes@[parent as int].children@;
                    nodes[parent].children.push(id);
                    proof {
                        let f = |child: usize| child as int;
                        assert(kids.push(id).map_values(f) =~= kids.map_values(f).push(id as int));
                        assert(nodes.deep_view() =~= with_child(
                            before.nodes,
                            parent as int,
                            id as int,
                        ));
                    }
                }
                let ghost linked = nodes.deep_view();
                let leaf = HtmlNode { value: value.copy(), children: Vec::new() };
                nodes.push(leaf);
                entered.push(id);
                proof {
                    let f = |child: usize| child as int;
                    assert(leaf.deep_view().children =~= Seq::<int>::empty());
                    assert(nodes.deep_view() =~= grow(before, edges[i as int].deep_view()).nodes);
                    assert(entered@.map_values(f) =~= before.entered.push(id as int));
                    let new = nodes.deep_view();
                    assert forall|n: int, k: int|
                        0 <= n < new.len() && 0 <= k < new[n].children.len() implies n
                        < #[trigger] new[n].children[k] < new.len() by {
                        if n < before.nodes.len() {
                            if k < before.nodes[n].children.len() {
                                assert(new[n].children[k] == before.nodes[n].children[k]);
                            }
                        }
                    }
                }
            },
            HtmlEdge::Close => {
                let ghost was = entered@;
                let _ = entered.pop();
                proof {
                    let f = |id: usize| id as int;
                    if was.len() > 0 {
                        assert(entered@.map_values(f) =~= was.map_values(f).drop_last());
                    }
                }
            },
        }
    }
    assert(all.take(all.len() as int) =~= all);
    nodes
}

// ─── Elements ────────────────────────────────────────────────────────

/// What an element means to the reader.
#[derive(Clone, Copy, Debug, PartialEq, Eq, Structural)]
pub enum HtmlTag {
    Bold,
    Italic,
    Underline,
    Strikeout,
    Code,
    Link,
    Image,
    Break,
    Table,
    TableHead,
    TableBody,
    TableRow,
    TableCell,
    /// A paragraph or a div.
    Paragraph,
    /// The body or the whole document.
    Page,
    /// The level of the heading.
    Heading(i64),
    ListItem,
    Preformatted,
    Blockquote,
    UnorderedList,
    OrderedList,
    Other,
}

/// What an element of a name means to the reader.
pub open spec fn html_tag(name: Seq<char>) -> HtmlTag {
    if name == "b"@ || name == "strong"@ {
        HtmlTag::Bold
    } else if name == "i"@ || name == "em"@ {
        HtmlTag::Italic
    } else if name == "u"@ || name == "ins"@ {
        HtmlTag::Underline
    } else if name == "s"@ || name == "del"@ || name == "strike"@ {
        HtmlTag::Strikeout
    } else if name == "code"@ {
        HtmlTag::Code
    } else if name == "a"@ {
        HtmlTag::Link
    } else if name == "img"@ {
        HtmlTag::Image
    } else if name == "br"@ {
        HtmlTag::Break
    } else {
        html_block_tag(name)
    }
}

/// What an element of blocks of a name means to the reader.
pub open spec fn html_block_tag(name: Seq<char>) -> HtmlTag {
    if name == "table"@ {
        HtmlTag::Table
    } else if name == "thead"@ {
        HtmlTag::TableHead
    } else if name == "tbody"@ || name == "tfoot"@ {
        HtmlTag::TableBody
    } else if name == "tr"@ {
        HtmlTag::TableRow
    } else if name == "td"@ || name == "th"@ {
        HtmlTag::TableCell
    } else if name == "p"@ || name == "div"@ {
        HtmlTag::Paragraph
    } else if name == "body"@ || name == "html"@ {
        HtmlTag::Page
    } else if name == "h1"@ {
        HtmlTag::Heading(1)
    } else if name == "h2"@ {
        HtmlTag::Heading(2)
    } else if name == "h3"@ {
        HtmlTag::Heading(3)
    } else if name == "h4"@ {
        HtmlTag::Heading(4)
    } else if name == "h5"@ {
        HtmlTag::Heading(5)
    } else if name == "h6"@ {
        HtmlTag::Heading(6)
    } else if name == "li"@ {
        HtmlTag::ListItem
    } else if name == "pre"@ {
        HtmlTag::Preformatted
    } else if name == "blockquote"@ {
        HtmlTag::Blockquote
    } else if name == "ul"@ {
        HtmlTag::UnorderedList
    } else if name == "ol"@ {
        HtmlTag::OrderedList
    } else {
        HtmlTag::Other
    }
}

/// What an element of a name means to the reader.
fn tag_of(name: &str) -> (tag: HtmlTag)
    ensures
        tag == html_tag(name@),
{
    if same_text(name, "b") || same_text(name, "strong") {
        HtmlTag::Bold
    } else if same_text(name, "i") || same_text(name, "em") {
        HtmlTag::Italic
    } else if same_text(name, "u") || same_text(name, "ins") {
        HtmlTag::Underline
    } else if same_text(name, "s") || same_text(name, "del") || same_text(name, "strike") {
        HtmlTag::Strikeout
    } else if same_text(name, "code") {
        HtmlTag::Code
    } else if same_text(name, "a") {
        HtmlTag::Link
    } else if same_text(name, "img") {
        HtmlTag::Image
    } else if same_text(name, "br") {
        HtmlTag::Break
    } else {
        block_tag_of(name)
    }
}

/// What an element of blocks of a name means to the reader.
fn block_tag_of(name: &str) -> (tag: HtmlTag)
    ensures
        tag == html_block_tag(name@),
{
    if same_text(name, "table") {
        HtmlTag::Table
    } else if same_text(name, "thead") {
        HtmlTag::TableHead
    } else if same_text(name, "tbody") || same_text(name, "tfoot") {
        HtmlTag::TableBody
    } else if same_text(name, "tr") {
        HtmlTag::TableRow
    } else if same_text(name, "td") || same_text(name, "th") {
        HtmlTag::TableCell
    } else if same_text(name, "p") || same_text(name, "div") {
        HtmlTag::Paragraph
    } else if same_text(name, "body") || same_text(name, "html") {
        HtmlTag::Page
    } else if same_text(name, "h1") {
        HtmlTag::Heading(1)
    } else if same_text(name, "h2") {
        HtmlTag::Heading(2)
    } else if same_text(name, "h3") {
        HtmlTag::Heading(3)
    } else if same_text(name, "h4") {
        HtmlTag::Heading(4)
    } else if same_text(name, "h5") {
        HtmlTag::Heading(5)
    } else if same_text(name, "h6") {
        HtmlTag::Heading(6)
    } else if same_text(name, "li") {
        HtmlTag::ListItem
    } else if same_text(name, "pre") {
        HtmlTag::Preformatted
    } else if same_text(name, "blockquote") {
        HtmlTag::Blockquote
    } else if same_text(name, "ul") {
        HtmlTag::UnorderedList
    } else if same_text(name, "ol") {
        HtmlTag::OrderedList
    } else {
        HtmlTag::Other
    }
}

/// The value of an element's own attribute of a name, from the `i`-th on.
pub open spec fn html_attr_from(
    attrs: Seq<(Seq<char>, Seq<char>, Seq<char>)>,
    name: Seq<char>,
    i: int,
) -> Option<Seq<char>>
    decreases attrs.len() - i,
{
    if i < 0 || i >= attrs.len() {
        None
    } else if attrs[i].0.len() == 0 && attrs[i].1 == name {
        Some(attrs[i].2)
    } else {
        html_attr_from(attrs, name, i + 1)
    }
}

/// The value of an element's own attribute of a name.
pub open spec fn html_attr(attrs: Seq<(Seq<char>, Seq<char>, Seq<char>)>, name: Seq<char>) -> Option<
    Seq<char>,
> {
    html_attr_from(attrs, name, 0)
}

/// The value of an element's own attribute of a name.
fn find_html_attr<'a>(attrs: &'a Vec<HtmlAttr>, name: &str) -> (value: Option<&'a String>)
    ensures
        value.deep_view() == html_attr(attrs.deep_view(), name@),
{
    let ghost all = attrs.deep_view();
    for i in 0..attrs.len()
        invariant
            all == attrs.deep_view(),
            html_attr_from(all, name@, 0) == html_attr_from(all, name@, i as int),
    {
        assert(all[i as int] == attrs[i as int].deep_view());
        if attrs[i].0.as_str().is_empty() && same_text(attrs[i].1.as_str(), name) {
            return Some(&attrs[i].2);
        }
    }
    None
}

/// A text without any `px` that it ends with.
pub open spec fn without_px(text: Seq<char>) -> Seq<char>
    decreases text.len(),
{
    if text.len() >= 2 && text[text.len() - 2] == 'p' && text[text.len() - 1] == 'x' {
        without_px(text.take(text.len() - 2))
    } else {
        text
    }
}

/// A size in pixels from an attribute, zero where it is missing or not positive.
pub open spec fn html_pixels(value: Option<Seq<char>>) -> i64 {
    match value {
        Some(text) => match number(without_px(trim(text))) {
            Some(n) => if n > 0 {
                n
            } else {
                0
            },
            None => 0,
        },
        None => 0,
    }
}

/// A size in pixels from an attribute, zero where it is missing or not positive.
fn pixels_of(value: Option<&String>) -> (n: i64)
    ensures
        n == html_pixels(value.deep_view()),
{
    if let Some(v) = value {
        let chars = trimmed(to_chars(v.as_str()).as_slice());
        let mut end: usize = chars.len();
        assert(chars@.take(end as int) =~= chars@);
        while end >= 2 && chars[end - 2] == 'p' && chars[end - 1] == 'x'
            invariant
                end <= chars@.len(),
                without_px(chars@) == without_px(chars@.take(end as int)),
            decreases end,
        {
            assert(chars@.take(end as int).take(end - 2) =~= chars@.take(end - 2));
            end -= 2;
        }
        let digits = part(chars.as_slice(), 0, end);
        assert(digits@ =~= chars@.take(end as int));
        if let Some(n) = parse_number(digits.as_slice()) {
            if n > 0 {
                return n;
            }
        }
    }
    0
}

/// The inline formatting that is open.
#[verifier::ext_equal]
pub struct FormatState {
    pub bold: bool,
    pub italic: bool,
    pub underline: bool,
    pub strikeout: bool,
    pub code: bool,
    pub link: Option<Seq<char>>,
}

/// No inline formatting.
pub open spec fn unformatted() -> FormatState {
    FormatState {
        bold: false,
        italic: false,
        underline: false,
        strikeout: false,
        code: false,
        link: None,
    }
}

/// A span of text in the open formatting.
pub open spec fn html_span(format: FormatState, text: Seq<char>) -> SpanModel {
    SpanModel {
        text,
        bold: format.bold,
        italic: format.italic,
        underline: format.underline,
        strikeout: format.strikeout,
        code: format.code,
        link_href: format.link,
        ..empty_span()
    }
}

/// The formatting inside an element.
pub open spec fn inner_format(
    format: FormatState,
    tag: HtmlTag,
    attrs: Seq<(Seq<char>, Seq<char>, Seq<char>)>,
) -> FormatState {
    match tag {
        HtmlTag::Bold => FormatState { bold: true, ..format },
        HtmlTag::Italic => FormatState { italic: true, ..format },
        HtmlTag::Underline => FormatState { underline: true, ..format },
        HtmlTag::Strikeout => FormatState { strikeout: true, ..format },
        HtmlTag::Code => FormatState { code: true, ..format },
        HtmlTag::Link => match html_attr(attrs, "href"@) {
            Some(href) => FormatState { link: Some(href), ..format },
            None => format,
        },
        _ => format,
    }
}

/// The span of an image element, if it has a usable source.
pub open spec fn image_span(
    attrs: Seq<(Seq<char>, Seq<char>, Seq<char>)>,
    link: Option<Seq<char>>,
) -> Option<SpanModel> {
    match html_attr(attrs, "src"@) {
        Some(src) => if src.len() > 0 {
            Some(
                SpanModel {
                    link_href: link,
                    image: Some(
                        PictureModel {
                            src,
                            alt: match html_attr(attrs, "alt"@) {
                                Some(alt) => alt,
                                None => Seq::empty(),
                            },
                            width: html_pixels(html_attr(attrs, "width"@)),
                            height: html_pixels(html_attr(attrs, "height"@)),
                        },
                    ),
                    ..empty_span()
                },
            )
        } else {
            None
        },
        None => None,
    }
}

/// The inline formatting that is open.
struct FmtState {
    bold: bool,
    italic: bool,
    underline: bool,
    strikeout: bool,
    code: bool,
    link_href: Option<String>,
}

impl DeepView for FmtState {
    type V = FormatState;

    closed spec fn deep_view(&self) -> FormatState {
        FormatState {
            bold: self.bold,
            italic: self.italic,
            underline: self.underline,
            strikeout: self.strikeout,
            code: self.code,
            link: self.link_href.deep_view(),
        }
    }
}

impl FmtState {
    /// No inline formatting.
    fn plain() -> (state: Self)
        ensures
            state.deep_view() == unformatted(),
    {
        FmtState {
            bold: false,
            italic: false,
            underline: false,
            strikeout: false,
            code: false,
            link_href: None,
        }
    }

    /// The formatting inside an element.
    fn inside(&self, tag: HtmlTag, attrs: &Vec<HtmlAttr>) -> (state: Self)
        ensures
            state.deep_view() == inner_format(self.deep_view(), tag, attrs.deep_view()),
    {
        let mut state = FmtState {
            bold: self.bold,
            italic: self.italic,
            underline: self.underline,
            strikeout: self.strikeout,
            code: self.code,
            link_href: self.link_href.clone(),
        };
        match tag {
            HtmlTag::Bold => {
                state.bold = true;
            },
            HtmlTag::Italic => {
                state.italic = true;
            },
            HtmlTag::Underline => {
                state.underline = true;
            },
            HtmlTag::Strikeout => {
                state.strikeout = true;
            },
            HtmlTag::Code => {
                state.code = true;
            },
            HtmlTag::Link => {
                if let Some(href) = find_html_attr(attrs, "href") {
                    state.link_href = Some(href.clone());
                }
            },
            _ => {},
        }
        state
    }

    /// A span of text in this formatting.
    fn span(&self, text: String) -> (span: ParsedSpan)
        ensures
            span.deep_view() == html_span(self.deep_view(), text@),
    {
        let mut span = ParsedSpan::default();
        span.text = text;
        span.bold = self.bold;
        span.italic = self.italic;
        span.underline = self.underline;
        span.strikeout = self.strikeout;
        span.code = self.code;
        span.link_href = self.link_href.clone();
        span
    }
}

/// Build an inline-image span from an `<img>` element's attributes, if it has a
/// usable source.
fn html_img_span(attrs: &Vec<HtmlAttr>, link_href: &Option<String>) -> (span: Option<ParsedSpan>)
    ensures
        span.deep_view() == image_span(attrs.deep_view(), link_href.deep_view()),
{
    match find_html_attr(attrs, "src") {
        Some(src) => {
            if src.as_str().is_empty() {
                return None;
            }
            let alt = match find_html_attr(attrs, "alt") {
                Some(alt) => alt.clone(),
                None => String::new(),
            };
            assert(alt@ =~= image_span(
                attrs.deep_view(),
                link_href.deep_view(),
            )->0.image->0.alt);
            let image = ParsedImage {
                src: src.clone(),
                alt,
                width: pixels_of(find_html_attr(attrs, "width")),
                height: pixels_of(find_html_attr(attrs, "height")),
            };
            let mut span = ParsedSpan::default();
            span.link_href = link_href.clone();
            span.image = Some(image);
            Some(span)
        },
        None => None,
    }
}

// ─── Tables ──────────────────────────────────────────────────────────

/// How deep the reader follows a document. What lies deeper is not read.
pub const MAX_RECURSION_DEPTH: usize = 256;

/// The spans of a table cell, or of an element in one.
pub open spec fn cell_spans(
    nodes: Seq<NodeModel>,
    i: int,
    format: FormatState,
    depth: int,
) -> Seq<SpanModel>
    decreases 258 - depth, 1int, 0int,
{
    if depth > 256 {
        Seq::empty()
    } else {
        cell_children(nodes, i, nodes[i].children.len() as int, format, depth)
    }
}

/// The spans of the first `k` children of an element in a table cell.
pub open spec fn cell_children(
    nodes: Seq<NodeModel>,
    i: int,
    k: int,
    format: FormatState,
    depth: int,
) -> Seq<SpanModel>
    decreases 258 - depth, 0int, k,
{
    if depth > 256 || k <= 0 {
        Seq::empty()
    } else {
        let child = nodes[i].children[k - 1];
        cell_children(nodes, i, k - 1, format, depth) + match nodes[child].value {
            ValueModel::Text(text) => if text.len() > 0 {
                seq![html_span(format, text)]
            } else {
                Seq::empty()
            },
            ValueModel::Element(name, attrs) => if html_tag(name) == HtmlTag::Image {
                match image_span(attrs, format.link) {
                    Some(span) => seq![span],
                    None => Seq::empty(),
                }
            } else {
                cell_spans(nodes, child, inner_format(format, html_tag(name), attrs), depth + 1)
            },
            ValueModel::Other => Seq::empty(),
        }
    }
}

/// The spans of a table cell, which has at least one.
pub open spec fn cell_content(nodes: Seq<NodeModel>, i: int) -> Seq<SpanModel> {
    let spans = cell_spans(nodes, i, unformatted(), 0);
    if spans.len() == 0 {
        seq![empty_span()]
    } else {
        spans
    }
}

/// The cells among the first `k` children of a table row.
pub open spec fn row_cells(nodes: Seq<NodeModel>, i: int, k: int) -> Seq<Seq<SpanModel>>
    decreases k,
{
    if k <= 0 {
        Seq::empty()
    } else {
        let rest = row_cells(nodes, i, k - 1);
        let child = nodes[i].children[k - 1];
        match nodes[child].value {
            ValueModel::Element(name, _) => if html_tag(name) == HtmlTag::TableCell {
                rest.push(cell_content(nodes, child))
            } else {
                rest
            },
            _ => rest,
        }
    }
}

/// The rows of a table, and how many of them are in its head.
#[verifier::ext_equal]
pub struct RowsModel {
    pub rows: Seq<Seq<Seq<SpanModel>>>,
    pub heads: int,
}

/// The rows among the first `k` children of a table or of a part of one.
pub open spec fn table_rows(nodes: Seq<NodeModel>, i: int, k: int, in_head: bool) -> RowsModel
    decreases nodes.len() - i, k,
{
    if k <= 0 {
        RowsModel { rows: Seq::empty(), heads: 0 }
    } else {
        let rest = table_rows(nodes, i, k - 1, in_head);
        let child = nodes[i].children[k - 1];
        match nodes[child].value {
            ValueModel::Element(name, _) => match html_tag(name) {
                HtmlTag::TableHead | HtmlTag::TableBody => if i < child < nodes.len() {
                    let inner = table_rows(
                        nodes,
                        child,
                        nodes[child].children.len() as int,
                        html_tag(name) == HtmlTag::TableHead,
                    );
                    RowsModel { rows: rest.rows + inner.rows, heads: rest.heads + inner.heads }
                } else {
                    rest
                },
                HtmlTag::TableRow => {
                    let cells = row_cells(nodes, child, nodes[child].children.len() as int);
                    if cells.len() > 0 {
                        RowsModel {
                            rows: rest.rows.push(cells),
                            heads: if in_head {
                                rest.heads + 1
                            } else {
                                rest.heads
                            },
                        }
                    } else {
                        rest
                    }
                },
                _ => rest,
            },
            _ => rest,
        }
    }
}

/// A table element. Where nothing marks its head, its first row is the head.
pub open spec fn html_table(nodes: Seq<NodeModel>, i: int, quote: int) -> TableModel {
    let found = table_rows(nodes, i, nodes[i].children.len() as int, false);
    TableModel {
        header_rows: if found.heads == 0 && found.rows.len() > 0 {
            1
        } else {
            found.heads
        },
        rows: found.rows,
        blockquote_depth: quote,
    }
}

/// Collect inline spans from a `<td>` or `<th>` cell element.
fn collect_cell_spans(
    nodes: &Vec<HtmlNode>,
    i: usize,
    state: &FmtState,
    spans: &mut Vec<ParsedSpan>,
    depth: usize,
)
    requires
        is_tree(nodes.deep_view()),
        i < nodes@.len(),
        depth <= 257,
    ensures
        final(spans).deep_view() == old(spans).deep_view() + cell_spans(
            nodes.deep_view(),
            i as int,
            state.deep_view(),
            depth as int,
        ),
    decreases 258 - depth,
{
    let ghost tree = nodes.deep_view();
    let ghost start = spans.deep_view();
    let ghost format = state.deep_view();
    if depth > MAX_RECURSION_DEPTH {
        assert(start + Seq::<SpanModel>::empty() =~= start);
        return;
    }
    assert(start + cell_children(tree, i as int, 0, format, depth as int) =~= start);
    let count: usize = nodes[i].children.len();
    for k in 0..count
        invariant
            count == tree[i as int].children.len(),
            tree == nodes.deep_view(),
            is_tree(tree),
            format == state.deep_view(),
            i < nodes@.len(),
            depth <= 256,
            spans.deep_view() == start + cell_children(
                tree,
                i as int,
                k as int,
                format,
                depth as int,
            ),
    {
        let child: usize = nodes[i].children[k];
        let ghost before = spans.deep_view();
        let ghost done = cell_children(tree, i as int, k as int, format, depth as int);
        proof {
            assert(tree[i as int].children[k as int] == child);
            assert(tree[child as int] == nodes@[child as int].deep_view());
        }
        match &nodes[child].value {
            HtmlValue::Text(text) => {
                if !text.as_str().is_empty() {
                    spans.push(state.span(text.clone()));
                    assert(spans.deep_view() =~= start + (done + seq![html_span(format, text@)]));
                } else {
                    assert(start + (done + Seq::<SpanModel>::empty()) =~= before);
                }
            },
            HtmlValue::Element(name, attrs) => {
                let tag = tag_of(name.as_str());
                if tag == HtmlTag::Image {
                    match html_img_span(attrs, &state.link_href) {
                        Some(span) => {
                            spans.push(span);
                            assert(spans.deep_view() =~= start + (done + seq![span.deep_view()]));
                        },
                        None => {
                            assert(start + (done + Seq::<SpanModel>::empty()) =~= before);
                        },
                    }
                } else {
                    let inner = state.inside(tag, attrs);
                    collect_cell_spans(nodes, child, &inner, spans, depth + 1);
                    let ghost more = cell_spans(
                        tree,
                        child as int,
                        inner.deep_view(),
                        depth + 1,
                    );
                    assert((start + done) + more =~= start + (done + more));
                }
            },
            HtmlValue::Other => {
                assert(start + (done + Seq::<SpanModel>::empty()) =~= before);
            },
        }
    }
}

/// The cells of a table row.
fn collect_cells(nodes: &Vec<HtmlNode>, i: usize) -> (cells: Vec<ParsedTableCell>)
    requires
        is_tree(nodes.deep_view()),
        i < nodes@.len(),
    ensures
        cells.deep_view() == row_cells(
            nodes.deep_view(),
            i as int,
            nodes.deep_view()[i as int].children.len() as int,
        ),
{
    let ghost tree = nodes.deep_view();
    let mut cells: Vec<ParsedTableCell> = Vec::new();
    let count: usize = nodes[i].children.len();
    for k in 0..count
        invariant
            count == tree[i as int].children.len(),
            tree == nodes.deep_view(),
            is_tree(tree),
            i < nodes@.len(),
            cells.deep_view() == row_cells(tree, i as int, k as int),
    {
        let child: usize = nodes[i].children[k];
        proof {
            assert(tree[i as int].children[k as int] == child);
            assert(tree[child as int] == nodes@[child as int].deep_view());
        }
        if let HtmlValue::Element(name, _) = &nodes[child].value {
            if tag_of(name.as_str()) == HtmlTag::TableCell {
                let mut spans: Vec<ParsedSpan> = Vec::new();
                collect_cell_spans(nodes, child, &FmtState::plain(), &mut spans, 0);
                assert(Seq::<SpanModel>::empty() + cell_spans(tree, child as int, unformatted(), 0)
                    =~= cell_spans(tree, child as int, unformatted(), 0));
                if spans.is_empty() {
                    spans.push(ParsedSpan::default());
                    assert(spans.deep_view() =~= seq![empty_span()]);
                }
                cells.push(ParsedTableCell { spans });
            }
        }
    }
    cells
}

/// Adds the rows of a table or of a part of one. Returns how many of them are in
/// a head.
fn collect_rows(
    nodes: &Vec<HtmlNode>,
    i: usize,
    rows: &mut Vec<Vec<ParsedTableCell>>,
    in_head: bool,
) -> (heads: usize)
    requires
        is_tree(nodes.deep_view()),
        i < nodes@.len(),
    ensures
        final(rows).deep_view() == old(rows).deep_view() + table_rows(
            nodes.deep_view(),
            i as int,
            nodes.deep_view()[i as int].children.len() as int,
            in_head,
        ).rows,
        heads == table_rows(
            nodes.deep_view(),
            i as int,
            nodes.deep_view()[i as int].children.len() as int,
            in_head,
        ).heads,
        heads <= final(rows)@.len() - old(rows)@.len(),
    decreases nodes@.len() - i,
{
    let ghost tree = nodes.deep_view();
    let ghost start = rows.deep_view();
    let mut heads: usize = 0;
    assert(start + table_rows(tree, i as int, 0, in_head).rows =~= start);
    let count: usize = nodes[i].children.len();
    for k in 0..count
        invariant
            count == tree[i as int].children.len(),
            tree == nodes.deep_view(),
            is_tree(tree),
            i < nodes@.len(),
            rows.deep_view() == start + table_rows(tree, i as int, k as int, in_head).rows,
            heads == table_rows(tree, i as int, k as int, in_head).heads,
            heads <= rows@.len() - start.len(),
    {
        let child: usize = nodes[i].children[k];
        let ghost rest = table_rows(tree, i as int, k as int, in_head).rows;
        proof {
            assert(tree[i as int].children[k as int] == child);
            assert(tree[child as int] == nodes@[child as int].deep_view());
        }
        if let HtmlValue::Element(name, _) = &nodes[child].value {
            match tag_of(name.as_str()) {
                HtmlTag::TableHead => {
                    let more: usize = collect_rows(nodes, child, rows, true);
                    proof {
                        let inner = table_rows(
                            tree,
                            child as int,
                            tree[child as int].children.len() as int,
                            true,
                        ).rows;
                        assert((start + rest) + inner =~= start + (rest + inner));
                    }
                    assert(heads + more <= rows.len());
                    heads = heads + more;
                },
                HtmlTag::TableBody => {
                    let more: usize = collect_rows(nodes, child, rows, false);
                    proof {
                        let inner = table_rows(
                            tree,
                            child as int,
                            tree[child as int].children.len() as int,
                            false,
                        ).rows;
                        assert((start + rest) + inner =~= start + (rest + inner));
                    }
                    assert(heads + more <= rows.len());
                    heads = heads + more;
                },
                HtmlTag::TableRow => {
                    let cells = collect_cells(nodes, child);
                    if !cells.is_empty() {
                        rows.push(cells);
                        assert(rows.deep_view() =~= start + rest.push(cells.deep_view()));
                        if in_head {
                            assert(heads + 1 <= rows.len());
                            heads = heads + 1;
                        }
                    }
                },
                _ => {},
            }
        }
    }
    heads
}

/// Parse a `<table>` element.
fn parse_table_element(nodes: &Vec<HtmlNode>, i: usize, quote: u32) -> (table: ParsedTable)
    requires
        is_tree(nodes.deep_view()),
        i < nodes@.len(),
    ensures
        table.deep_view() == html_table(nodes.deep_view(), i as int, quote as int),
{
    let mut rows: Vec<Vec<ParsedTableCell>> = Vec::new();
    let mut header_rows: usize = collect_rows(nodes, i, &mut rows, false);
    proof {
        let found = table_rows(
            nodes.deep_view(),
            i as int,
            nodes.deep_view()[i as int].children.len() as int,
            false,
        ).rows;
        assert(Seq::<Seq<Seq<SpanModel>>>::empty() + found =~= found);
    }
    if header_rows == 0 && !rows.is_empty() {
        header_rows = 1;
    }
    ParsedTable { header_rows, rows, blockquote_depth: quote }
}

// ─── Blocks ──────────────────────────────────────────────────────────

/// What surrounds a node: the open formatting, list and blockquotes.
#[verifier::ext_equal]
pub struct Surroundings {
    pub format: FormatState,
    pub list_style: Option<ListStyle>,
    pub quote: int,
    pub list_depth: int,
}

/// What surrounds the children of an element.
pub open spec fn inside(
    c: Surroundings,
    tag: HtmlTag,
    attrs: Seq<(Seq<char>, Seq<char>, Seq<char>)>,
) -> Surroundings {
    let formatted = Surroundings { format: inner_format(c.format, tag, attrs), ..c };
    match tag {
        HtmlTag::UnorderedList => Surroundings {
            list_style: Some(ListStyle::Disc),
            list_depth: c.list_depth + 1,
            ..formatted
        },
        HtmlTag::OrderedList => Surroundings {
            list_style: Some(ListStyle::Decimal),
            list_depth: c.list_depth + 1,
            ..formatted
        },
        HtmlTag::Blockquote => Surroundings { quote: c.quote + 1, ..formatted },
        _ => formatted,
    }
}

/// The language among the words of a class, from the `i`-th on: what stands
/// behind `language-` in the first word that begins so.
pub open spec fn language_word(classes: Seq<Seq<char>>, i: int) -> Option<Seq<char>>
    decreases classes.len() - i,
{
    if i < 0 || i >= classes.len() {
        None
    } else if begins_with(classes[i], "language-"@) {
        Some(classes[i].skip("language-"@.len() as int))
    } else {
        language_word(classes, i + 1)
    }
}

/// The language of the first code element among the children of a node, from
/// the `k`-th on, that names one.
pub open spec fn language_from(nodes: Seq<NodeModel>, i: int, k: int) -> Option<Seq<char>>
    decreases nodes[i].children.len() - k,
{
    if k < 0 || k >= nodes[i].children.len() {
        None
    } else {
        let found = match nodes[nodes[i].children[k]].value {
            ValueModel::Element(name, attrs) => if html_tag(name) == HtmlTag::Code {
                match html_attr(attrs, "class"@) {
                    Some(class) => language_word(words(class), 0),
                    None => None,
                }
            } else {
                None
            },
            _ => None,
        };
        if found is Some {
            found
        } else {
            language_from(nodes, i, k + 1)
        }
    }
}

/// Whether an element is a block of its own where it stands among blocks.
pub open spec fn is_block(tag: HtmlTag) -> bool {
    ||| tag is Paragraph
    ||| tag is Page
    ||| tag is Heading
    ||| tag is ListItem
    ||| tag is Preformatted
}

/// Whether an element inside a block is read as an element of its own.
pub open spec fn is_nested(tag: HtmlTag) -> bool {
    ||| tag is Paragraph
    ||| tag is Heading
    ||| tag is ListItem
    ||| tag is Preformatted
    ||| tag is Blockquote
    ||| tag is UnorderedList
    ||| tag is OrderedList
    ||| tag is Table
}

/// The block of an element with these spans.
pub open spec fn element_block(
    nodes: Seq<NodeModel>,
    i: int,
    tag: HtmlTag,
    css: CssModel,
    c: Surroundings,
    spans: Seq<SpanModel>,
) -> BlockModel {
    BlockModel {
        heading_level: match tag {
            HtmlTag::Heading(level) => Some(level),
            _ => None,
        },
        list_style: if tag is ListItem {
            c.list_style
        } else {
            None
        },
        list_indent: if tag is ListItem && c.list_depth > 0 {
            c.list_depth - 1
        } else {
            0
        },
        is_code_block: tag is Preformatted,
        code_language: if tag is Preformatted {
            language_from(nodes, i, 0)
        } else {
            None
        },
        blockquote_depth: c.quote,
        line_height: css.line_height,
        non_breakable_lines: css.non_breakable_lines,
        page_break_before: css.page_break_before,
        direction: css.direction,
        background_color: css.background_color,
        ..paragraph(spans)
    }
}

/// The styles of an element.
pub open spec fn element_css(
    attrs: Seq<(Seq<char>, Seq<char>, Seq<char>)>,
    reading: spec_fn(Seq<char>) -> Option<i64>,
) -> CssModel {
    match html_attr(attrs, "style"@) {
        Some(style) => css_of(style, reading),
        None => no_css(),
    }
}

/// Spans of a block, and elements that come behind it.
#[verifier::ext_equal]
pub struct Collected {
    pub spans: Seq<SpanModel>,
    pub elements: Seq<ElementModel>,
}

/// The elements that a node among blocks becomes.
pub open spec fn walked(
    nodes: Seq<NodeModel>,
    i: int,
    c: Surroundings,
    depth: int,
    reading: spec_fn(Seq<char>) -> Option<i64>,
) -> Seq<ElementModel>
    decreases 258 - depth, 1int, 0int,
{
    if depth > 256 {
        Seq::empty()
    } else {
        let count = nodes[i].children.len() as int;
        match nodes[i].value {
            ValueModel::Text(text) => if trim(text).len() > 0 {
                // Bare text that is not in a block is a paragraph.
                seq![
                    ElementModel::Block(
                        BlockModel {
                            blockquote_depth: c.quote,
                            ..paragraph(seq![html_span(c.format, trim(text))])
                        },
                    ),
                ]
            } else {
                Seq::empty()
            },
            ValueModel::Other => walked_children(nodes, i, count, c, depth + 1, reading),
            ValueModel::Element(name, attrs) => {
                let tag = html_tag(name);
                let inner = inside(c, tag, attrs);
                if tag is Table {
                    let table = html_table(nodes, i, inner.quote);
                    if table.rows.len() > 0 {
                        seq![ElementModel::Table(table)]
                    } else {
                        Seq::empty()
                    }
                } else if tag is Break {
                    seq![
                        ElementModel::Block(
                            BlockModel {
                                blockquote_depth: inner.quote,
                                ..paragraph(seq![empty_span()])
                            },
                        ),
                    ]
                } else if is_block(tag) {
                    let found = collected(nodes, i, inner, depth + 1, reading);
                    let block = ElementModel::Block(
                        element_block(
                            nodes,
                            i,
                            tag,
                            element_css(attrs, reading),
                            inner,
                            found.spans,
                        ),
                    );
                    if found.spans.len() > 0 || tag is Heading {
                        seq![block] + found.elements
                    } else {
                        found.elements
                    }
                } else {
                    walked_children(nodes, i, count, inner, depth + 1, reading)
                }
            },
        }
    }
}

/// The elements that the first `k` children of a node become, among blocks.
pub open spec fn walked_children(
    nodes: Seq<NodeModel>,
    i: int,
    k: int,
    c: Surroundings,
    depth: int,
    reading: spec_fn(Seq<char>) -> Option<i64>,
) -> Seq<ElementModel>
    decreases 258 - depth, 2int, k,
{
    if depth > 257 || k <= 0 {
        Seq::empty()
    } else {
        walked_children(nodes, i, k - 1, c, depth, reading) + walked(
            nodes,
            nodes[i].children[k - 1],
            c,
            depth,
            reading,
        )
    }
}

/// The spans that the children of a block's node become, and the elements that
/// come behind the block.
pub open spec fn collected(
    nodes: Seq<NodeModel>,
    i: int,
    c: Surroundings,
    depth: int,
    reading: spec_fn(Seq<char>) -> Option<i64>,
) -> Collected
    decreases 258 - depth, 1int, 0int,
{
    if depth > 256 {
        Collected { spans: Seq::empty(), elements: Seq::empty() }
    } else {
        collected_children(nodes, i, nodes[i].children.len() as int, c, depth, reading)
    }
}

/// The spans and elements of the first `k` children of a block's node.
pub open spec fn collected_children(
    nodes: Seq<NodeModel>,
    i: int,
    k: int,
    c: Surroundings,
    depth: int,
    reading: spec_fn(Seq<char>) -> Option<i64>,
) -> Collected
    decreases 258 - depth, 0int, k,
{
    if depth > 256 || k <= 0 {
        Collected { spans: Seq::empty(), elements: Seq::empty() }
    } else {
        let rest = collected_children(nodes, i, k - 1, c, depth, reading);
        let child = nodes[i].children[k - 1];
        match nodes[child].value {
            ValueModel::Text(text) => if text.len() > 0 {
                Collected { spans: rest.spans.push(html_span(c.format, text)), ..rest }
            } else {
                rest
            },
            ValueModel::Other => rest,
            ValueModel::Element(name, attrs) => {
                let tag = html_tag(name);
                let inner = Surroundings { format: inner_format(c.format, tag, attrs), ..c };
                if tag is Image {
                    match image_span(attrs, c.format.link) {
                        Some(span) => Collected { spans: rest.spans.push(span), ..rest },
                        None => rest,
                    }
                } else if tag is Break {
                    Collected { spans: rest.spans.push(empty_span()), ..rest }
                } else if is_nested(tag) {
                    Collected {
                        elements: rest.elements + walked(nodes, child, inner, depth + 1, reading),
                        ..rest
                    }
                } else {
                    let found = collected(nodes, child, inner, depth + 1, reading);
                    Collected {
                        spans: rest.spans + found.spans,
                        elements: rest.elements + found.elements,
                    }
                }
            },
        }
    }
}

/// What surrounds the root.
pub open spec fn nowhere() -> Surroundings {
    Surroundings { format: unformatted(), list_style: None, quote: 0, list_depth: 0 }
}

/// The elements of a document. What its root holds outside of blocks is one
/// last paragraph.
pub open spec fn html_elements(
    nodes: Seq<NodeModel>,
    reading: spec_fn(Seq<char>) -> Option<i64>,
) -> Seq<ElementModel> {
    if nodes.len() == 0 {
        or_empty_paragraph(Seq::empty())
    } else {
        let found = collected(nodes, 0, nowhere(), 0, reading);
        or_empty_paragraph(
            if found.spans.len() > 0 {
                found.elements.push(ElementModel::Block(paragraph(found.spans)))
            } else {
                found.elements
            },
        )
    }
}

/// What surrounds a node: the open formatting, list and blockquotes.
struct Around {
    state: FmtState,
    list_style: Option<ListStyle>,
    quote: u32,
    list_depth: u32,
}

impl DeepView for Around {
    type V = Surroundings;

    closed spec fn deep_view(&self) -> Surroundings {
        Surroundings {
            format: self.state.deep_view(),
            list_style: self.list_style,
            quote: self.quote as int,
            list_depth: self.list_depth as int,
        }
    }
}

impl Around {
    /// What surrounds the children of an element.
    fn inside(&self, tag: HtmlTag, attrs: &Vec<HtmlAttr>) -> (around: Self)
        requires
            self.quote < u32::MAX,
            self.list_depth < u32::MAX,
        ensures
            around.deep_view() == inside(self.deep_view(), tag, attrs.deep_view()),
    {
        let mut around = self.formatted(tag, attrs);
        match tag {
            HtmlTag::UnorderedList => {
                around.list_style = Some(ListStyle::Disc);
                around.list_depth = self.list_depth + 1;
            },
            HtmlTag::OrderedList => {
                around.list_style = Some(ListStyle::Decimal);
                around.list_depth = self.list_depth + 1;
            },
            HtmlTag::Blockquote => {
                around.quote = self.quote + 1;
            },
            _ => {},
        }
        around
    }

    /// The same surroundings in the formatting of an element.
    fn formatted(&self, tag: HtmlTag, attrs: &Vec<HtmlAttr>) -> (around: Self)
        ensures
            around.deep_view() == (Surroundings {
                format: inner_format(self.deep_view().format, tag, attrs.deep_view()),
                ..self.deep_view()
            }),
    {
        Around {
            state: self.state.inside(tag, attrs),
            list_style: self.list_style,
            quote: self.quote,
            list_depth: self.list_depth,
        }
    }
}

/// The language that a class names.
fn language_of_class(class: &str) -> (language: Option<String>)
    ensures
        language.deep_view() == language_word(words(class@), 0),
{
    let classes = split_words(to_chars(class).as_slice());
    let ghost all = classes.deep_view();
    for i in 0..classes.len()
        invariant
            all == classes.deep_view(),
            all == words(class@),
            language_word(all, 0) == language_word(all, i as int),
    {
        assert(all[i as int] =~= classes[i as int]@);
        if let Some(rest) = after_prefix(classes[i].as_slice(), "language-") {
            return Some(from_chars(rest.as_slice()));
        }
    }
    None
}

/// The language of the first code element among the children of a node that
/// names one.
fn find_language(nodes: &Vec<HtmlNode>, i: usize) -> (language: Option<String>)
    requires
        is_tree(nodes.deep_view()),
        i < nodes@.len(),
    ensures
        language.deep_view() == language_from(nodes.deep_view(), i as int, 0),
{
    let ghost tree = nodes.deep_view();
    let count: usize = nodes[i].children.len();
    for k in 0..count
        invariant
            count == tree[i as int].children.len(),
            tree == nodes.deep_view(),
            is_tree(tree),
            i < nodes@.len(),
            language_from(tree, i as int, 0) == language_from(tree, i as int, k as int),
    {
        let child: usize = nodes[i].children[k];
        proof {
            assert(tree[i as int].children[k as int] == child);
            assert(tree[child as int] == nodes@[child as int].deep_view());
        }
        if let HtmlValue::Element(name, attrs) = &nodes[child].value {
            if tag_of(name.as_str()) == HtmlTag::Code {
                if let Some(class) = find_html_attr(attrs, "class") {
                    let found = language_of_class(class.as_str());
                    if found.is_some() {
                        return found;
                    }
                }
            }
        }
    }
    None
}

/// The block of an element with these spans.
fn make_block<F: Fn(&str) -> Option<i64> + Copy>(
    nodes: &Vec<HtmlNode>,
    i: usize,
    tag: HtmlTag,
    attrs: &Vec<HtmlAttr>,
    around: &Around,
    spans: Vec<ParsedSpan>,
    measure: F,
) -> (block: ParsedBlock)
    requires
        is_tree(nodes.deep_view()),
        i < nodes@.len(),
        reads_text(measure),
    ensures
        block.deep_view() == element_block(
            nodes.deep_view(),
            i as int,
            tag,
            element_css(attrs.deep_view(), reading_of(measure)),
            around.deep_view(),
            spans.deep_view(),
        ),
{
    let css = match find_html_attr(attrs, "style") {
        Some(style) => parse_block_styles(style.as_str(), measure),
        None => BlockStyles::default(),
    };
    let mut block = ParsedBlock::paragraph(spans);
    match tag {
        HtmlTag::Heading(level) => {
            block.heading_level = Some(level);
        },
        HtmlTag::ListItem => {
            block.list_style = around.list_style;
            if around.list_depth > 0 {
                block.list_indent = around.list_depth - 1;
            }
        },
        HtmlTag::Preformatted => {
            block.is_code_block = true;
            block.code_language = find_language(nodes, i);
        },
        _ => {},
    }
    block.blockquote_depth = around.quote;
    block.line_height = css.line_height;
    block.non_breakable_lines = css.non_breakable_lines;
    block.page_break_before = css.page_break_before;
    block.direction = css.direction;
    block.background_color = css.background_color;
    block
}

/// Reads a node among blocks.
fn walk_node<F: Fn(&str) -> Option<i64> + Copy>(
    nodes: &Vec<HtmlNode>,
    i: usize,
    around: &Around,
    elements: &mut Vec<ParsedElement>,
    depth: usize,
    measure: F,
)
    requires
        is_tree(nodes.deep_view()),
        i < nodes@.len(),
        depth <= 257,
        around.quote <= depth,
        around.list_depth <= depth,
        reads_text(measure),
    ensures
        final(elements).deep_view() == old(elements).deep_view() + walked(
            nodes.deep_view(),
            i as int,
            around.deep_view(),
            depth as int,
            reading_of(measure),
        ),
    decreases 258 - depth, 1int,
{
    let ghost tree = nodes.deep_view();
    let ghost start = elements.deep_view();
    let ghost reading = reading_of(measure);
    let ghost goal = walked(tree, i as int, around.deep_view(), depth as int, reading);
    assert(tree[i as int] == nodes@[i as int].deep_view());
    if depth > MAX_RECURSION_DEPTH {
        assert(start + Seq::<ElementModel>::empty() =~= start);
        return;
    }
    match &nodes[i].value {
        HtmlValue::Text(text) => {
            let chars = trimmed(to_chars(text.as_str()).as_slice());
            if chars.len() > 0 {
                let spans = vec![around.state.span(from_chars(chars.as_slice()))];
                assert(spans.deep_view() =~= seq![html_span(
                    around.deep_view().format,
                    trim(text@),
                )]);
                let mut block = ParsedBlock::paragraph(spans);
                block.blockquote_depth = around.quote;
                elements.push(ParsedElement::Block(block));
                assert(elements.deep_view() =~= start + goal);
            } else {
                assert(start + Seq::<ElementModel>::empty() =~= start);
            }
        },
        HtmlValue::Other => {
            walk_children(nodes, i, around, elements, depth + 1, measure);
        },
        HtmlValue::Element(name, attrs) => {
            let tag = tag_of(name.as_str());
            let inner = around.inside(tag, attrs);
            match tag {
                HtmlTag::Table => {
                    let table = parse_table_element(nodes, i, inner.quote);
                    if !table.rows.is_empty() {
                        elements.push(ParsedElement::Table(table));
                        assert(elements.deep_view() =~= start + goal);
                    } else {
                        assert(start + Seq::<ElementModel>::empty() =~= start);
                    }
                },
                HtmlTag::Break => {
                    let mut block = ParsedBlock::empty_paragraph();
                    block.blockquote_depth = inner.quote;
                    elements.push(ParsedElement::Block(block));
                    assert(elements.deep_view() =~= start + goal);
                },
                HtmlTag::Paragraph | HtmlTag::Page | HtmlTag::Heading(_) | HtmlTag::ListItem
                | HtmlTag::Preformatted => {
                    // Nested block-level elements (e.g. sub-lists inside <li>)
                    // are collected separately and come *after* the block.
                    let mut spans: Vec<ParsedSpan> = Vec::new();
                    let mut nested: Vec<ParsedElement> = Vec::new();
                    collect_inline_spans(
                        nodes,
                        i,
                        &inner,
                        &mut spans,
                        &mut nested,
                        depth + 1,
                        measure,
                    );
                    let ghost found = collected(
                        tree,
                        i as int,
                        inner.deep_view(),
                        depth + 1,
                        reading,
                    );
                    proof {
                        assert(spans.deep_view() =~= found.spans);
                        assert(nested.deep_view() =~= found.elements);
                    }
                    let is_heading: bool = matches!(tag, HtmlTag::Heading(_));
                    if spans.len() > 0 || is_heading {
                        let block = make_block(nodes, i, tag, attrs, &inner, spans, measure);
                        elements.push(ParsedElement::Block(block));
                    }
                    let ghost before = elements.deep_view();
                    elements.append(&mut nested);
                    assert(elements.deep_view() =~= before + found.elements);
                    assert(elements.deep_view() =~= start + goal);
                },
                _ => {
                    walk_children(nodes, i, &inner, elements, depth + 1, measure);
                },
            }
        },
    }
}

/// Reads the children of a node among blocks.
fn walk_children<F: Fn(&str) -> Option<i64> + Copy>(
    nodes: &Vec<HtmlNode>,
    i: usize,
    around: &Around,
    elements: &mut Vec<ParsedElement>,
    depth: usize,
    measure: F,
)
    requires
        is_tree(nodes.deep_view()),
        i < nodes@.len(),
        depth <= 257,
        around.quote <= depth,
        around.list_depth <= depth,
        reads_text(measure),
    ensures
        final(elements).deep_view() == old(elements).deep_view() + walked_children(
            nodes.deep_view(),
            i as int,
            nodes.deep_view()[i as int].children.len() as int,
            around.deep_view(),
            depth as int,
            reading_of(measure),
        ),
    decreases 258 - depth, 2int,
{
    let ghost tree = nodes.deep_view();
    let ghost start = elements.deep_view();
    let ghost reading = reading_of(measure);
    let ghost c = around.deep_view();
    assert(start + walked_children(tree, i as int, 0, c, depth as int, reading) =~= start);
    let count: usize = nodes[i].children.len();
    for k in 0..count
        invariant
            count == tree[i as int].children.len(),
            tree == nodes.deep_view(),
            is_tree(tree),
            reading == reading_of(measure),
            c == around.deep_view(),
            i < nodes@.len(),
            depth <= 257,
            around.quote <= depth,
            around.list_depth <= depth,
            reads_text(measure),
            elements.deep_view() == start + walked_children(
                tree,
                i as int,
                k as int,
                c,
                depth as int,
                reading,
            ),
    {
        let child: usize = nodes[i].children[k];
        proof {
            assert(tree[i as int].children[k as int] == child);
        }
        walk_node(nodes, child, around, elements, depth, measure);
        proof {
            let done = walked_children(tree, i as int, k as int, c, depth as int, reading);
            let more = walked(tree, child as int, c, depth as int, reading);
            assert((start + done) + more =~= start + (done + more));
        }
    }
}

/// Collect inline spans from a block-level element's children.
/// If a nested block-level element is encountered, it becomes an element of its
/// own.
fn collect_inline_spans<F: Fn(&str) -> Option<i64> + Copy>(
    nodes: &Vec<HtmlNode>,
    i: usize,
    around: &Around,
    spans: &mut Vec<ParsedSpan>,
    elements: &mut Vec<ParsedElement>,
    depth: usize,
    measure: F,
)
    requires
        is_tree(nodes.deep_view()),
        i < nodes@.len(),
        depth <= 257,
        around.quote <= depth,
        around.list_depth <= depth,
        reads_text(measure),
    ensures
        final(spans).deep_view() == old(spans).deep_view() + collected(
            nodes.deep_view(),
            i as int,
            around.deep_view(),
            depth as int,
            reading_of(measure),
        ).spans,
        final(elements).deep_view() == old(elements).deep_view() + collected(
            nodes.deep_view(),
            i as int,
            around.deep_view(),
            depth as int,
            reading_of(measure),
        ).elements,
    decreases 258 - depth, 1int,
{
    let ghost tree = nodes.deep_view();
    let ghost start = spans.deep_view();
    let ghost first = elements.deep_view();
    let ghost reading = reading_of(measure);
    let ghost c = around.deep_view();
    assert(start + Seq::<SpanModel>::empty() =~= start);
    assert(first + Seq::<ElementModel>::empty() =~= first);
    if depth > MAX_RECURSION_DEPTH {
        return;
    }
    let count: usize = nodes[i].children.len();
    for k in 0..count
        invariant
            count == tree[i as int].children.len(),
            tree == nodes.deep_view(),
            is_tree(tree),
            reading == reading_of(measure),
            c == around.deep_view(),
            i < nodes@.len(),
            depth <= 256,
            around.quote <= depth,
            around.list_depth <= depth,
            reads_text(measure),
            spans.deep_view() == start + collected_children(
                tree,
                i as int,
                k as int,
                c,
                depth as int,
                reading,
            ).spans,
            elements.deep_view() == first + collected_children(
                tree,
                i as int,
                k as int,
                c,
                depth as int,
                reading,
            ).elements,
    {
        let child: usize = nodes[i].children[k];
        let ghost rest = collected_children(tree, i as int, k as int, c, depth as int, reading);
        proof {
            assert(tree[i as int].children[k as int] == child);
            assert(tree[child as int] == nodes@[child as int].deep_view());
        }
        match &nodes[child].value {
            HtmlValue::Text(text) => {
                if !text.as_str().is_empty() {
                    spans.push(around.state.span(text.clone()));
                    assert(spans.deep_view() =~= start + rest.spans.push(
                        html_span(c.format, text@),
                    ));
                }
            },
            HtmlValue::Other => {},
            HtmlValue::Element(name, attrs) => {
                let tag = tag_of(name.as_str());
                match tag {
                    HtmlTag::Image => {
                        if let Some(span) = html_img_span(attrs, &around.state.link_href) {
                            spans.push(span);
                            assert(spans.deep_view() =~= start + rest.spans.push(
                                span.deep_view(),
                            ));
                        }
                    },
                    HtmlTag::Break => {
                        spans.push(ParsedSpan::default());
                        assert(spans.deep_view() =~= start + rest.spans.push(empty_span()));
                    },
                    HtmlTag::Paragraph | HtmlTag::Heading(_) | HtmlTag::ListItem
                    | HtmlTag::Preformatted | HtmlTag::Blockquote | HtmlTag::UnorderedList
                    | HtmlTag::OrderedList | HtmlTag::Table => {
                        let inner = around.formatted(tag, attrs);
                        walk_node(nodes, child, &inner, elements, depth + 1, measure);
                        proof {
                            let more = walked(
                                tree,
                                child as int,
                                inner.deep_view(),
                                depth + 1,
                                reading,
                            );
                            assert((first + rest.elements) + more =~= first + (rest.elements
                                + more));
                        }
                    },
                    _ => {
                        let inner = around.formatted(tag, attrs);
                        collect_inline_spans(
                            nodes,
                            child,
                            &inner,
                            spans,
                            elements,
                            depth + 1,
                            measure,
                        );
                        proof {
                            let found = collected(
                                tree,
                                child as int,
                                inner.deep_view(),
                                depth + 1,
                                reading,
                            );
                            assert((start + rest.spans) + found.spans =~= start + (rest.spans
                                + found.spans));
                            assert((first + rest.elements) + found.elements =~= first + (
                            rest.elements + found.elements));
                        }
                    },
                }
            },
        }
    }
}

/// The elements of the document that a walk goes through. `measure` reads the
/// text of a line height into thousandths of a line.
pub fn read_html<F: Fn(&str) -> Option<i64> + Copy>(edges: &Vec<HtmlEdge>, measure: F) -> (elements:
    Vec<ParsedElement>)
    requires
        reads_text(measure),
    ensures
        elements.deep_view() == html_elements(tree_of(edges.deep_view()), reading_of(measure)),
        elements.len() > 0,
{
    let nodes = build_tree(edges);
    let mut elements: Vec<ParsedElement> = Vec::new();
    if nodes.len() > 0 {
        let around = Around {
            state: FmtState::plain(),
            list_style: None,
            quote: 0,
            list_depth: 0,
        };
        assert(around.deep_view() =~= nowhere());
        // The root is a block-level container, so that top-level inline
        // elements are grouped into a single block.
        let mut spans: Vec<ParsedSpan> = Vec::new();
        collect_inline_spans(&nodes, 0, &around, &mut spans, &mut elements, 0, measure);
        proof {
            let found = collected(
                nodes.deep_view(),
                0,
                nowhere(),
                0,
                reading_of(measure),
            );
            assert(spans.deep_view() =~= found.spans);
            assert(elements.deep_view() =~= found.elements);
        }
        if spans.len() > 0 {
            elements.push(ParsedElement::Block(ParsedBlock::paragraph(spans)));
        }
    }
    if elements.is_empty() {
        assert(elements.deep_view() =~= Seq::<ElementModel>::empty());
        elements.push(ParsedElement::Block(ParsedBlock::empty_paragraph()));
        assert(elements.deep_view() =~= or_empty_paragraph(Seq::empty()));
    }
    elements
}

// ─── The parser ──────────────────────────────────────────────────────

/// A node, as scraper tells it.
#[verifier::external_type_specification]
#[verifier::external_body]
pub struct ExNode(Node);

/// What a `scraper::Node` is, variant by variant and field by field; nothing is
/// claimed of it beyond what [`html_edges`] names.
#[verifier::external_body]
fn value_of(node: &Node) -> HtmlValue {
    match node {
        Node::Element(element) => HtmlValue::Element(
            element.name().to_string(),
            element.attrs.iter().map(
                |(name, value)| (name.ns.to_string(), name.local.to_string(), value.to_string()),
            ).collect(),
        ),
        Node::Text(text) => HtmlValue::Text(text.text.to_string()),
        _ => HtmlValue::Other,
    }
}

/// The steps of a walk through what `scraper::Html::parse_fragment` makes of a
/// text, from its root element.
pub uninterp spec fn html_edge_stream(html: Seq<char>) -> Seq<EdgeModel>;

/// Calls `scraper::Html::parse_fragment`, and walks through the root element of
/// what it gives with `ego_tree::NodeRef::traverse`. The contract claims that the
/// steps of the walk are a function of the text, named by [`html_edge_stream`].
#[verifier::external_body]
fn html_edges(html: &str) -> (edges: Vec<HtmlEdge>)
    ensures
        edges.deep_view() == html_edge_stream(html@),
{
    let fragment = Html::parse_fragment(html);
    fragment.root_element().traverse().map(|edge| match edge {
        Edge::Open(node) => HtmlEdge::Open(value_of(node.value())),
        Edge::Close(_) => HtmlEdge::Close,
    }).collect()
}

/// Reads an HTML fragment. `measure` reads the text of a line height into
/// thousandths of a line.
pub fn parse_html_elements<F: Fn(&str) -> Option<i64> + Copy>(html: &str, measure: F) -> (elements:
    Vec<ParsedElement>)
    requires
        reads_text(measure),
    ensures
        elements.deep_view() == html_elements(
            tree_of(html_edge_stream(html@)),
            reading_of(measure),
        ),
        elements.len() > 0,
{
    let edges = html_edges(html);
    read_html(&edges, measure)
}

/// Reads an HTML fragment into blocks, tables into one block per cell. `measure`
/// reads the text of a line height into thousandths of a line.
pub fn parse_html<F: Fn(&str) -> Option<i64> + Copy>(html: &str, measure: F) -> (blocks: Vec<
    ParsedBlock,
>)
    requires
        reads_text(measure),
    ensures
        blocks.deep_view() == flattened(
            html_elements(tree_of(html_edge_stream(html@)), reading_of(measure)),
        ),
        blocks.len() > 0,
{
    ParsedElement::flatten_to_blocks(parse_html_elements(html, measure))
}

} // verus!
