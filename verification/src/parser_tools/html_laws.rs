//! What the HTML reader makes of the elements of a document, stated over their names,
//! their attributes and their texts.
use vstd::prelude::*;

use crate::chars::trim;
use crate::entities::ListStyle;
use crate::parser_tools::content_parser::{
    BlockModel, ElementModel, PictureModel, SpanModel, TableModel,
};
use crate::parser_tools::html::{
    cell_children, cell_content, cell_spans, collected, collected_children, element_css,
    html_attr, html_attr_from, html_elements, html_pixels, html_table, html_tag, inner_format,
    inside, is_nested, language_from, language_word, row_cells, table_rows, walked,
    walked_children, Collected, FormatState, HtmlTag, NodeModel, Surroundings, ValueModel,
};

verus! {

/// The attributes of an element: namespace, name and value of each.
pub type Attrs = Seq<(Seq<char>, Seq<char>, Seq<char>)>;

// ─── Names ───────────────────────────────────────────────────────────

/// Whether a name is that of an element that stands as a block of its own inside another.
pub open spec fn names_a_block(name: Seq<char>) -> bool {
    ||| name == "p"@
    ||| name == "div"@
    ||| name == "h1"@
    ||| name == "h2"@
    ||| name == "h3"@
    ||| name == "h4"@
    ||| name == "h5"@
    ||| name == "h6"@
    ||| name == "li"@
    ||| name == "pre"@
    ||| name == "blockquote"@
    ||| name == "ul"@
    ||| name == "ol"@
    ||| name == "table"@
}

/// What each name means to the reader.
pub(crate) proof fn names_mean(name: Seq<char>)
    ensures
        html_tag(name) is Bold <==> name == "b"@ || name == "strong"@,
        html_tag(name) is Italic <==> name == "i"@ || name == "em"@,
        html_tag(name) is Underline <==> name == "u"@ || name == "ins"@,
        html_tag(name) is Strikeout <==> name == "s"@ || name == "del"@ || name == "strike"@,
        html_tag(name) is Code <==> name == "code"@,
        html_tag(name) is Link <==> name == "a"@,
        html_tag(name) is Image <==> name == "img"@,
        html_tag(name) is Break <==> name == "br"@,
        html_tag(name) is Table <==> name == "table"@,
        html_tag(name) is TableHead <==> name == "thead"@,
        html_tag(name) is TableBody <==> name == "tbody"@ || name == "tfoot"@,
        html_tag(name) is TableRow <==> name == "tr"@,
        html_tag(name) is TableCell <==> name == "td"@ || name == "th"@,
        html_tag(name) is Paragraph <==> name == "p"@ || name == "div"@,
        html_tag(name) is Page <==> name == "body"@ || name == "html"@,
        html_tag(name) is ListItem <==> name == "li"@,
        html_tag(name) is Preformatted <==> name == "pre"@,
        html_tag(name) is Blockquote <==> name == "blockquote"@,
        html_tag(name) is UnorderedList <==> name == "ul"@,
        html_tag(name) is OrderedList <==> name == "ol"@,
        html_tag(name) == HtmlTag::Heading(1) <==> name == "h1"@,
        html_tag(name) == HtmlTag::Heading(2) <==> name == "h2"@,
        html_tag(name) == HtmlTag::Heading(3) <==> name == "h3"@,
        html_tag(name) == HtmlTag::Heading(4) <==> name == "h4"@,
        html_tag(name) == HtmlTag::Heading(5) <==> name == "h5"@,
        html_tag(name) == HtmlTag::Heading(6) <==> name == "h6"@,
        html_tag(name) is Heading <==> name == "h1"@ || name == "h2"@ || name == "h3"@ || name
            == "h4"@ || name == "h5"@ || name == "h6"@,
        is_nested(html_tag(name)) <==> names_a_block(name),
{
    reveal_strlit("b");
    reveal_strlit("strong");
    reveal_strlit("i");
    reveal_strlit("em");
    reveal_strlit("u");
    reveal_strlit("ins");
    reveal_strlit("s");
    reveal_strlit("del");
    reveal_strlit("strike");
    reveal_strlit("code");
    reveal_strlit("a");
    reveal_strlit("img");
    reveal_strlit("br");
    reveal_strlit("table");
    reveal_strlit("thead");
    reveal_strlit("tbody");
    reveal_strlit("tfoot");
    reveal_strlit("tr");
    reveal_strlit("td");
    reveal_strlit("th");
    reveal_strlit("p");
    reveal_strlit("div");
    reveal_strlit("body");
    reveal_strlit("html");
    reveal_strlit("h1");
    reveal_strlit("h2");
    reveal_strlit("h3");
    reveal_strlit("h4");
    reveal_strlit("h5");
    reveal_strlit("h6");
    reveal_strlit("li");
    reveal_strlit("pre");
    reveal_strlit("blockquote");
    reveal_strlit("ul");
    reveal_strlit("ol");
    let n = name.len();
    assert(name == "b"@ ==> n == 1 && name[0] == 'b');
    assert(name == "strong"@ ==> n == 6 && name[0] == 's' && name[1] == 't' && name[2] == 'r' && name[3] == 'o' && name[4] == 'n');
    assert(name == "i"@ ==> n == 1 && name[0] == 'i');
    assert(name == "em"@ ==> n == 2 && name[0] == 'e' && name[1] == 'm');
    assert(name == "u"@ ==> n == 1 && name[0] == 'u');
    assert(name == "ins"@ ==> n == 3 && name[0] == 'i' && name[1] == 'n' && name[2] == 's');
    assert(name == "s"@ ==> n == 1 && name[0] == 's');
    assert(name == "del"@ ==> n == 3 && name[0] == 'd' && name[1] == 'e' && name[2] == 'l');
    assert(name == "strike"@ ==> n == 6 && name[0] == 's' && name[1] == 't' && name[2] == 'r' && name[3] == 'i' && name[4] == 'k');
    assert(name == "code"@ ==> n == 4 && name[0] == 'c' && name[1] == 'o' && name[2] == 'd' && name[3] == 'e');
    assert(name == "a"@ ==> n == 1 && name[0] == 'a');
    assert(name == "img"@ ==> n == 3 && name[0] == 'i' && name[1] == 'm' && name[2] == 'g');
    assert(name == "br"@ ==> n == 2 && name[0] == 'b' && name[1] == 'r');
    assert(name == "table"@ ==> n == 5 && name[0] == 't' && name[1] == 'a' && name[2] == 'b' && name[3] == 'l' && name[4] == 'e');
    assert(name == "thead"@ ==> n == 5 && name[0] == 't' && name[1] == 'h' && name[2] == 'e' && name[3] == 'a' && name[4] == 'd');
    assert(name == "tbody"@ ==> n == 5 && name[0] == 't' && name[1] == 'b' && name[2] == 'o' && name[3] == 'd' && name[4] == 'y');
    assert(name == "tfoot"@ ==> n == 5 && name[0] == 't' && name[1] == 'f' && name[2] == 'o' && name[3] == 'o' && name[4] == 't');
    assert(name == "tr"@ ==> n == 2 && name[0] == 't' && name[1] == 'r');
    assert(name == "td"@ ==> n == 2 && name[0] == 't' && name[1] == 'd');
    assert(name == "th"@ ==> n == 2 && name[0] == 't' && name[1] == 'h');
    assert(name == "p"@ ==> n == 1 && name[0] == 'p');
    assert(name == "div"@ ==> n == 3 && name[0] == 'd' && name[1] == 'i' && name[2] == 'v');
    assert(name == "body"@ ==> n == 4 && name[0] == 'b' && name[1] == 'o' && name[2] == 'd' && name[3] == 'y');
    assert(name == "html"@ ==> n == 4 && name[0] == 'h' && name[1] == 't' && name[2] == 'm' && name[3] == 'l');
    assert(name == "h1"@ ==> n == 2 && name[0] == 'h' && name[1] == '1');
    assert(name == "h2"@ ==> n == 2 && name[0] == 'h' && name[1] == '2');
    assert(name == "h3"@ ==> n == 2 && name[0] == 'h' && name[1] == '3');
    assert(name == "h4"@ ==> n == 2 && name[0] == 'h' && name[1] == '4');
    assert(name == "h5"@ ==> n == 2 && name[0] == 'h' && name[1] == '5');
    assert(name == "h6"@ ==> n == 2 && name[0] == 'h' && name[1] == '6');
    assert(name == "li"@ ==> n == 2 && name[0] == 'l' && name[1] == 'i');
    assert(name == "pre"@ ==> n == 3 && name[0] == 'p' && name[1] == 'r' && name[2] == 'e');
    assert(name == "blockquote"@ ==> n == 10 && name[0] == 'b' && name[1] == 'l' && name[2] == 'o' && name[3] == 'c' && name[4] == 'k');
    assert(name == "ul"@ ==> n == 2 && name[0] == 'u' && name[1] == 'l');
    assert(name == "ol"@ ==> n == 2 && name[0] == 'o' && name[1] == 'l');
}

// ─── Attributes ──────────────────────────────────────────────────────

/// Whether an attribute is the first of a name among an element's own.
pub open spec fn is_first_attr(attrs: Attrs, name: Seq<char>, k: int) -> bool {
    &&& 0 <= k < attrs.len()
    &&& attrs[k].0.len() == 0 && attrs[k].1 == name
    &&& forall|j: int| 0 <= j < k ==> !((#[trigger] attrs[j]).0.len() == 0 && attrs[j].1 == name)
}

proof fn attr_is_found_from(attrs: Attrs, name: Seq<char>, k: int, i: int)
    requires
        is_first_attr(attrs, name, k),
        0 <= i <= k,
    ensures
        html_attr_from(attrs, name, i) == Some(attrs[k].2),
    decreases k - i,
{
    if i < k {
        attr_is_found_from(attrs, name, k, i + 1);
    }
}

proof fn attr_is_missing_from(attrs: Attrs, name: Seq<char>, i: int)
    requires
        0 <= i,
        forall|j: int|
            0 <= j < attrs.len() ==> !((#[trigger] attrs[j]).0.len() == 0 && attrs[j].1 == name),
    ensures
        html_attr_from(attrs, name, i) is None,
    decreases attrs.len() - i,
{
    if i < attrs.len() {
        attr_is_missing_from(attrs, name, i + 1);
    }
}

/// The value of an attribute is that of the first of its name, and there is none where no
/// attribute has the name. One of another namespace does not count.
pub proof fn first_attribute_counts(attrs: Attrs, name: Seq<char>)
    ensures
        forall|k: int| #[trigger]
            is_first_attr(attrs, name, k) ==> html_attr(attrs, name) == Some(attrs[k].2),
        (forall|j: int|
            0 <= j < attrs.len() ==> !((#[trigger] attrs[j]).0.len() == 0 && attrs[j].1 == name))
            ==> html_attr(attrs, name) is None,
{
    assert forall|k: int| #[trigger] is_first_attr(attrs, name, k) implies html_attr(attrs, name)
        == Some(attrs[k].2) by {
        attr_is_found_from(attrs, name, k, 0);
    }
    if forall|j: int|
        0 <= j < attrs.len() ==> !((#[trigger] attrs[j]).0.len() == 0 && attrs[j].1 == name) {
        attr_is_missing_from(attrs, name, 0);
    }
}

// ─── A line ──────────────────────────────────────────────────────────

/// Whether a child of a block is part of its line and of nothing else: text, a comment, an
/// image, a break, or an element of another name than a block's with one text in it.
pub open spec fn is_simple(nodes: Seq<NodeModel>, child: int) -> bool {
    match nodes[child].value {
        ValueModel::Element(name, _) => {
            ||| name == "img"@
            ||| name == "br"@
            ||| !names_a_block(name) && nodes[child].children.len() == 1
                && nodes[nodes[child].children[0]].value is Text
        },
        _ => true,
    }
}

/// Whether all children of a node are part of its line.
pub open spec fn is_line(nodes: Seq<NodeModel>, i: int) -> bool {
    forall|k: int|
        0 <= k < nodes[i].children.len() ==> is_simple(nodes, #[trigger] nodes[i].children[k])
}

/// A piece of text in an element of a name: bold in `b` and `strong`, in italics in `i` and
/// `em`, underlined in `u` and `ins`, struck out in `s`, `del` and `strike`, code in `code`,
/// and a link in an `a` with a target; all of it beside the formatting around.
pub open spec fn worn(format: FormatState, name: Seq<char>, attrs: Attrs, text: Seq<char>) -> SpanModel {
    SpanModel {
        text,
        bold: format.bold || name == "b"@ || name == "strong"@,
        italic: format.italic || name == "i"@ || name == "em"@,
        underline: format.underline || name == "u"@ || name == "ins"@,
        strikeout: format.strikeout || name == "s"@ || name == "del"@ || name == "strike"@,
        code: format.code || name == "code"@,
        superscript: false,
        subscript: false,
        link_href: match html_attr(attrs, "href"@) {
            Some(href) => if name == "a"@ {
                Some(href)
            } else {
                format.link
            },
            None => format.link,
        },
        image: None,
        footnote_ref: None,
    }
}

/// Text in the formatting around it alone.
pub open spec fn plain(format: FormatState, text: Seq<char>) -> SpanModel {
    SpanModel {
        text,
        bold: format.bold,
        italic: format.italic,
        underline: format.underline,
        strikeout: format.strikeout,
        code: format.code,
        superscript: false,
        subscript: false,
        link_href: format.link,
        image: None,
        footnote_ref: None,
    }
}

/// A piece without text or formatting.
pub open spec fn blank() -> SpanModel {
    SpanModel {
        text: Seq::empty(),
        bold: false,
        italic: false,
        underline: false,
        strikeout: false,
        code: false,
        superscript: false,
        subscript: false,
        link_href: None,
        image: None,
        footnote_ref: None,
    }
}

/// The image of an element with a source: its description and its size, as far as the
/// attributes give them, within the link around it.
pub open spec fn pictures(attrs: Attrs, link: Option<Seq<char>>) -> Seq<SpanModel> {
    match html_attr(attrs, "src"@) {
        Some(src) => if src.len() > 0 {
            seq![
                SpanModel {
                    link_href: link,
                    image: Some(
                        PictureModel {
                            src,
                            alt: match html_attr(attrs, "alt"@) {
                                Some(alt) => alt,
                                None => Seq::empty(),
                            },
                            width: html_pixels(html_attr(attrs, "width"@)),
                            height: html_pixels(html_attr(attrs, "height"@)),
                        },
                    ),
                    ..blank()
                },
            ]
        } else {
            Seq::empty()
        },
        None => Seq::empty(),
    }
}

/// The text of a node.
pub open spec fn text_at(nodes: Seq<NodeModel>, i: int) -> Seq<char> {
    match nodes[i].value {
        ValueModel::Text(text) => text,
        _ => Seq::empty(),
    }
}

/// The pieces that a child adds to a line. In a table cell a break adds none.
pub open spec fn child_pieces(
    nodes: Seq<NodeModel>,
    child: int,
    format: FormatState,
    breaks: bool,
) -> Seq<SpanModel> {
    match nodes[child].value {
        ValueModel::Text(text) => if text.len() > 0 {
            seq![plain(format, text)]
        } else {
            Seq::empty()
        },
        ValueModel::Other => Seq::empty(),
        ValueModel::Element(name, attrs) => if name == "img"@ {
            pictures(attrs, format.link)
        } else if name == "br"@ {
            if breaks {
                seq![blank()]
            } else {
                Seq::empty()
            }
        } else {
            let text = text_at(nodes, nodes[child].children[0]);
            if text.len() > 0 {
                seq![worn(format, name, attrs, text)]
            } else {
                Seq::empty()
            }
        },
    }
}

/// The pieces of the first `k` children of a line.
pub open spec fn line_pieces(
    nodes: Seq<NodeModel>,
    i: int,
    k: int,
    format: FormatState,
    breaks: bool,
) -> Seq<SpanModel>
    decreases k,
{
    if k <= 0 {
        Seq::empty()
    } else {
        line_pieces(nodes, i, k - 1, format, breaks) + child_pieces(
            nodes,
            nodes[i].children[k - 1],
            format,
            breaks,
        )
    }
}

/// The pieces of the line of a node.
pub open spec fn pieces(nodes: Seq<NodeModel>, i: int, format: FormatState) -> Seq<SpanModel> {
    line_pieces(nodes, i, nodes[i].children.len() as int, format, true)
}

proof fn dressed_as_named(format: FormatState, name: Seq<char>, attrs: Attrs, text: Seq<char>)
    ensures
        plain(inner_format(format, html_tag(name), attrs), text) == worn(format, name, attrs, text),
{
    names_mean(name);
    assert(plain(inner_format(format, html_tag(name), attrs), text) =~= worn(
        format,
        name,
        attrs,
        text,
    ));
}

/// One text in an element.
proof fn one_text(
    nodes: Seq<NodeModel>,
    i: int,
    c: Surroundings,
    depth: int,
    reading: spec_fn(Seq<char>) -> Option<i64>,
)
    requires
        0 <= depth <= 256,
        nodes[i].children.len() == 1,
        nodes[nodes[i].children[0]].value is Text,
    ensures
        ({
            let text = text_at(nodes, nodes[i].children[0]);
            collected(nodes, i, c, depth, reading) == Collected {
                spans: if text.len() > 0 {
                    seq![plain(c.format, text)]
                } else {
                    Seq::empty()
                },
                elements: Seq::empty(),
            }
        }),
{
    let text = text_at(nodes, nodes[i].children[0]);
    let none = collected_children(nodes, i, 0, c, depth, reading);
    let found = collected_children(nodes, i, 1, c, depth, reading);
    assert(none.spans.len() == 0 && none.elements.len() == 0);
    assert(found.elements =~= Seq::empty());
    if text.len() > 0 {
        assert(found.spans =~= seq![plain(c.format, text)]);
    } else {
        assert(found.spans =~= Seq::empty());
    }
}

proof fn one_text_in_cell(nodes: Seq<NodeModel>, i: int, format: FormatState, depth: int)
    requires
        0 <= depth <= 256,
        nodes[i].children.len() == 1,
        nodes[nodes[i].children[0]].value is Text,
    ensures
        ({
            let text = text_at(nodes, nodes[i].children[0]);
            cell_spans(nodes, i, format, depth) == if text.len() > 0 {
                seq![plain(format, text)]
            } else {
                Seq::empty()
            }
        }),
{
    let text = text_at(nodes, nodes[i].children[0]);
    let none = cell_children(nodes, i, 0, format, depth);
    let found = cell_children(nodes, i, 1, format, depth);
    assert(none =~= Seq::empty());
    if text.len() > 0 {
        assert(found =~= seq![plain(format, text)]);
    } else {
        assert(found =~= Seq::empty());
    }
}

proof fn line_is_collected(
    nodes: Seq<NodeModel>,
    i: int,
    k: int,
    c: Surroundings,
    depth: int,
    reading: spec_fn(Seq<char>) -> Option<i64>,
)
    requires
        0 <= depth < 256,
        0 <= k <= nodes[i].children.len(),
        is_line(nodes, i),
    ensures
        collected_children(nodes, i, k, c, depth, reading) == (Collected {
            spans: line_pieces(nodes, i, k, c.format, true),
            elements: Seq::empty(),
        }),
    decreases k,
{
    let found = collected_children(nodes, i, k, c, depth, reading);
    if k == 0 {
        assert(found =~= Collected { spans: Seq::empty(), elements: Seq::empty() });
    } else {
        line_is_collected(nodes, i, k - 1, c, depth, reading);
        let rest = line_pieces(nodes, i, k - 1, c.format, true);
        let child = nodes[i].children[k - 1];
        assert(is_simple(nodes, child));
        let more = child_pieces(nodes, child, c.format, true);
        match nodes[child].value {
            ValueModel::Text(text) => {
                assert(found.spans =~= rest + more);
            },
            ValueModel::Other => {
                assert(found.spans =~= rest + more);
            },
            ValueModel::Element(name, attrs) => {
                names_mean(name);
                if name == "img"@ {
                    assert(found.spans =~= rest + more);
                } else if name == "br"@ {
                    assert(found.spans =~= rest + more);
                } else {
                    let inner = Surroundings {
                        format: inner_format(c.format, html_tag(name), attrs),
                        ..c
                    };
                    one_text(nodes, child, inner, depth + 1, reading);
                    dressed_as_named(
                        c.format,
                        name,
                        attrs,
                        text_at(nodes, nodes[child].children[0]),
                    );
                    assert(found.spans =~= rest + more);
                    assert(found.elements =~= Seq::empty());
                }
            },
        }
        assert(found =~= Collected { spans: rest + more, elements: Seq::empty() });
    }
}

proof fn line_is_collected_in_cell(
    nodes: Seq<NodeModel>,
    i: int,
    k: int,
    format: FormatState,
    depth: int,
)
    requires
        0 <= depth < 256,
        0 <= k <= nodes[i].children.len(),
        is_line(nodes, i),
        forall|m: int|
            0 <= m < nodes[i].children.len() ==> {
                let child = #[trigger] nodes[i].children[m];
                nodes[child].value matches ValueModel::Element(name, _) && name == "br"@
                    ==> nodes[child].children.len() == 0
            },
    ensures
        cell_children(nodes, i, k, format, depth) == line_pieces(nodes, i, k, format, false),
    decreases k,
{
    if k > 0 {
        line_is_collected_in_cell(nodes, i, k - 1, format, depth);
        let rest = line_pieces(nodes, i, k - 1, format, false);
        let child = nodes[i].children[k - 1];
        assert(is_simple(nodes, child));
        let found = cell_children(nodes, i, k, format, depth);
        let more = child_pieces(nodes, child, format, false);
        match nodes[child].value {
            ValueModel::Text(text) => {
                assert(found =~= rest + more);
            },
            ValueModel::Other => {
                assert(found =~= rest + more);
            },
            ValueModel::Element(name, attrs) => {
                names_mean(name);
                if name == "img"@ {
                    assert(found =~= rest + more);
                } else if name == "br"@ {
                    let inner = inner_format(format, html_tag(name), attrs);
                    assert(cell_spans(nodes, child, inner, depth + 1) =~= Seq::empty());
                    assert(found =~= rest + more);
                } else {
                    let inner = inner_format(format, html_tag(name), attrs);
                    one_text_in_cell(nodes, child, inner, depth + 1);
                    dressed_as_named(
                        format,
                        name,
                        attrs,
                        text_at(nodes, nodes[child].children[0]),
                    );
                    assert(found =~= rest + more);
                }
            },
        }
    }
}

// ─── Blocks ──────────────────────────────────────────────────────────

/// Whether an element of a name is a block of its own.
pub open spec fn names_a_line(name: Seq<char>) -> bool {
    ||| name == "p"@
    ||| name == "div"@
    ||| name == "li"@
    ||| name == "pre"@
    ||| names_a_heading(name)
}

/// Whether a name is that of a heading.
pub open spec fn names_a_heading(name: Seq<char>) -> bool {
    ||| name == "h1"@
    ||| name == "h2"@
    ||| name == "h3"@
    ||| name == "h4"@
    ||| name == "h5"@
    ||| name == "h6"@
}

/// Whether a block has the level that the name of its element says.
pub open spec fn has_level(block: BlockModel, name: Seq<char>) -> bool {
    &&& name == "h1"@ ==> block.heading_level == Some(1i64)
    &&& name == "h2"@ ==> block.heading_level == Some(2i64)
    &&& name == "h3"@ ==> block.heading_level == Some(3i64)
    &&& name == "h4"@ ==> block.heading_level == Some(4i64)
    &&& name == "h5"@ ==> block.heading_level == Some(5i64)
    &&& name == "h6"@ ==> block.heading_level == Some(6i64)
    &&& !names_a_heading(name) ==> block.heading_level is None
}

/// An element with a line in it is one block: the pieces of its line; a heading of its
/// level by its name; in a list what its list says, if it is an item; code if it is
/// preformatted; in the blockquotes around it, in the style that its attributes give. One
/// without text is none, unless it is a heading.
pub proof fn element_is_its_line(
    nodes: Seq<NodeModel>,
    i: int,
    name: Seq<char>,
    attrs: Attrs,
    c: Surroundings,
    depth: int,
    reading: spec_fn(Seq<char>) -> Option<i64>,
)
    requires
        nodes[i].value == ValueModel::Element(name, attrs),
        names_a_line(name),
        is_line(nodes, i),
        0 <= depth < 255,
    ensures
        ({
            let all = walked(nodes, i, c, depth, reading);
            let line = pieces(nodes, i, c.format);
            if line.len() == 0 && !names_a_heading(name) {
                all.len() == 0
            } else {
                &&& all.len() == 1
                &&& all[0] matches ElementModel::Block(block) && {
                    &&& block.spans == line
                    &&& has_level(block, name)
                    &&& block.list_style == if name == "li"@ {
                        c.list_style
                    } else {
                        None
                    }
                    &&& name == "li"@ && c.list_depth > 0 ==> block.list_indent == c.list_depth - 1
                    &&& block.list_prefix.len() == 0 && block.list_suffix.len() == 0
                    &&& block.marker is None
                    &&& block.is_code_block == (name == "pre"@)
                    &&& block.code_language == if name == "pre"@ {
                        language_from(nodes, i, 0)
                    } else {
                        None
                    }
                    &&& block.blockquote_depth == c.quote
                    &&& block.line_height == element_css(attrs, reading).line_height
                    &&& block.non_breakable_lines == element_css(
                        attrs,
                        reading,
                    ).non_breakable_lines
                    &&& block.page_break_before == element_css(attrs, reading).page_break_before
                    &&& block.direction == element_css(attrs, reading).direction
                    &&& block.background_color == element_css(attrs, reading).background_color
                    &&& block.alignment is None
                    &&& block.top_margin is None
                    &&& block.text_indent is None
                    &&& block.semantic_role is None
                }
            }
        }),
{
    names_mean(name);
    let tag = html_tag(name);
    let inner = inside(c, tag, attrs);
    assert(inner =~= c);
    line_is_collected(nodes, i, nodes[i].children.len() as int, inner, depth + 1, reading);
    let found = collected(nodes, i, inner, depth + 1, reading);
    assert(found.elements =~= Seq::empty());
    let all = walked(nodes, i, c, depth, reading);
    if found.spans.len() > 0 || tag is Heading {
        assert(all =~= seq![all[0]]);
    }
}

/// What surrounds the children of a list, a blockquote or an element of no meaning.
pub open spec fn surrounded(c: Surroundings, name: Seq<char>) -> Surroundings {
    Surroundings {
        format: c.format,
        list_style: if name == "ul"@ {
            Some(ListStyle::Disc)
        } else if name == "ol"@ {
            Some(ListStyle::Decimal)
        } else {
            c.list_style
        },
        quote: if name == "blockquote"@ {
            c.quote + 1
        } else {
            c.quote
        },
        list_depth: if name == "ul"@ || name == "ol"@ {
            c.list_depth + 1
        } else {
            c.list_depth
        },
    }
}

/// A list or a blockquote is its children, one behind the other: in a list of discs or of
/// numbers one list deeper, in a blockquote one quote deeper.
pub proof fn holder_is_its_children(
    nodes: Seq<NodeModel>,
    i: int,
    name: Seq<char>,
    attrs: Attrs,
    c: Surroundings,
    depth: int,
    reading: spec_fn(Seq<char>) -> Option<i64>,
)
    requires
        nodes[i].value == ValueModel::Element(name, attrs),
        name == "ul"@ || name == "ol"@ || name == "blockquote"@,
        0 <= depth <= 256,
    ensures
        walked(nodes, i, c, depth, reading) == walked_children(
            nodes,
            i,
            nodes[i].children.len() as int,
            surrounded(c, name),
            depth + 1,
            reading,
        ),
{
    names_mean(name);
    reveal_strlit("ul");
    reveal_strlit("ol");
    reveal_strlit("blockquote");
    assert(inside(c, html_tag(name), attrs) =~= surrounded(c, name));
}

/// Children become elements in their order: those of the last come behind those of all
/// before it.
pub proof fn children_keep_their_order(
    nodes: Seq<NodeModel>,
    i: int,
    k: int,
    c: Surroundings,
    depth: int,
    reading: spec_fn(Seq<char>) -> Option<i64>,
)
    requires
        0 <= depth <= 257,
    ensures
        walked_children(nodes, i, 0, c, depth, reading).len() == 0,
        0 < k <= nodes[i].children.len() ==> walked_children(nodes, i, k, c, depth, reading)
            == walked_children(nodes, i, k - 1, c, depth, reading) + walked(
            nodes,
            nodes[i].children[k - 1],
            c,
            depth,
            reading,
        ),
{
}

/// Text among blocks is a paragraph without the white space around it; white space alone is
/// nothing.
pub proof fn bare_text_is_a_paragraph(
    nodes: Seq<NodeModel>,
    i: int,
    text: Seq<char>,
    c: Surroundings,
    depth: int,
    reading: spec_fn(Seq<char>) -> Option<i64>,
)
    requires
        nodes[i].value == ValueModel::Text(text),
        0 <= depth <= 256,
    ensures
        ({
            let all = walked(nodes, i, c, depth, reading);
            if trim(text).len() == 0 {
                all.len() == 0
            } else {
                &&& all.len() == 1
                &&& all[0] matches ElementModel::Block(block) && {
                    &&& block.spans == seq![plain(c.format, trim(text))]
                    &&& block.heading_level is None
                    &&& block.list_style is None
                    &&& !block.is_code_block
                    &&& block.blockquote_depth == c.quote
                }
            }
        }),
{
}

/// A break among blocks is an empty paragraph.
pub proof fn break_is_an_empty_paragraph(
    nodes: Seq<NodeModel>,
    i: int,
    attrs: Attrs,
    c: Surroundings,
    depth: int,
    reading: spec_fn(Seq<char>) -> Option<i64>,
)
    requires
        nodes[i].value == ValueModel::Element("br"@, attrs),
        0 <= depth <= 256,
    ensures
        ({
            let all = walked(nodes, i, c, depth, reading);
            &&& all.len() == 1
            &&& all[0] matches ElementModel::Block(block) && block.spans == seq![blank()]
                && block.blockquote_depth == c.quote && block.heading_level is None
                && block.list_style is None && !block.is_code_block
        }),
{
    names_mean("br"@);
}

/// The language of preformatted code is the one that its `code` element names in a class
/// that begins with `language-`.
pub proof fn code_names_its_language(
    nodes: Seq<NodeModel>,
    i: int,
    attrs: Attrs,
    code: Attrs,
    c: Surroundings,
    depth: int,
    reading: spec_fn(Seq<char>) -> Option<i64>,
    class: Seq<char>,
    language: Seq<char>,
)
    requires
        nodes[i].value == ValueModel::Element("pre"@, attrs),
        nodes[i].children.len() == 1,
        nodes[nodes[i].children[0]].value == ValueModel::Element("code"@, code),
        nodes[nodes[i].children[0]].children.len() == 1,
        nodes[nodes[nodes[i].children[0]].children[0]].value is Text,
        text_at(nodes, nodes[nodes[i].children[0]].children[0]).len() > 0,
        html_attr(code, "class"@) == Some(class),
        crate::chars::words(class) == seq!["language-"@ + language],
        0 <= depth < 255,
    ensures
        ({
            let all = walked(nodes, i, c, depth, reading);
            &&& all.len() == 1
            &&& all[0] matches ElementModel::Block(block) && block.is_code_block
                && block.code_language == Some(language) && block.spans == seq![
                worn(
                    c.format,
                    "code"@,
                    code,
                    text_at(nodes, nodes[nodes[i].children[0]].children[0]),
                ),
            ]
        }),
{
    let child = nodes[i].children[0];
    names_mean("pre"@);
    names_mean("code"@);
    reveal_strlit("pre");
    reveal_strlit("code");
    reveal_strlit("img");
    reveal_strlit("br");
    reveal_strlit("p");
    reveal_strlit("div");
    reveal_strlit("h1");
    reveal_strlit("h2");
    reveal_strlit("h3");
    reveal_strlit("h4");
    reveal_strlit("h5");
    reveal_strlit("h6");
    reveal_strlit("li");
    reveal_strlit("blockquote");
    reveal_strlit("ul");
    reveal_strlit("ol");
    reveal_strlit("table");
    assert(is_simple(nodes, child));
    assert(is_line(nodes, i));
    element_is_its_line(nodes, i, "pre"@, attrs, c, depth, reading);
    assert(pieces(nodes, i, c.format) =~= line_pieces(nodes, i, 0, c.format, true) + child_pieces(
        nodes,
        child,
        c.format,
        true,
    ));
    assert(line_pieces(nodes, i, 0, c.format, true).len() == 0);
    assert(pieces(nodes, i, c.format) =~= seq![
        worn(c.format, "code"@, code, text_at(nodes, nodes[child].children[0])),
    ]);
    let word = "language-"@ + language;
    let classes = seq![word];
    assert(crate::chars::begins_with(word, "language-"@)) by {
        assert(word.take("language-"@.len() as int) =~= "language-"@);
    }
    assert(word.skip("language-"@.len() as int) =~= language);
    assert(language_word(classes, 0) == Some(language));
    assert(language_from(nodes, i, 0) == Some(language));
}

// ─── The document ────────────────────────────────────────────────────

/// A block right in the root is the only element of a document that holds nothing else.
pub proof fn document_is_its_block(
    nodes: Seq<NodeModel>,
    name: Seq<char>,
    attrs: Attrs,
    reading: spec_fn(Seq<char>) -> Option<i64>,
)
    requires
        nodes.len() > 0,
        nodes[0].children.len() == 1,
        nodes[nodes[0].children[0]].value == ValueModel::Element(name, attrs),
        names_a_line(name),
        is_line(nodes, nodes[0].children[0]),
        pieces(nodes, nodes[0].children[0], no_format()).len() > 0,
    ensures
        ({
            let all = html_elements(nodes, reading);
            &&& all.len() == 1
            &&& all[0] matches ElementModel::Block(block) && {
                &&& block.spans == pieces(nodes, nodes[0].children[0], no_format())
                &&& has_level(block, name)
                &&& block.is_code_block == (name == "pre"@)
                &&& block.blockquote_depth == 0
                &&& block.list_style is None
            }
        }),
{
    let child = nodes[0].children[0];
    let c = crate::parser_tools::html::nowhere();
    names_mean(name);
    element_is_its_line(nodes, child, name, attrs, c, 1, reading);
    assert(c.format =~= no_format());
    let none = collected_children(nodes, 0, 0, c, 0, reading);
    assert(none.spans.len() == 0 && none.elements.len() == 0);
    let tag = html_tag(name);
    let inner = Surroundings { format: inner_format(c.format, tag, attrs), ..c };
    assert(inner =~= c);
    let found = collected_children(nodes, 0, 1, c, 0, reading);
    assert(found.spans.len() == 0);
    assert(found.elements =~= walked(nodes, child, c, 1, reading));
}

/// No formatting at all.
pub open spec fn no_format() -> FormatState {
    FormatState {
        bold: false,
        italic: false,
        underline: false,
        strikeout: false,
        code: false,
        link: None,
    }
}

/// Text right in the root, in no block, is a last paragraph of its own.
pub proof fn loose_text_is_a_last_paragraph(
    nodes: Seq<NodeModel>,
    reading: spec_fn(Seq<char>) -> Option<i64>,
)
    requires
        nodes.len() > 0,
        is_line(nodes, 0),
        pieces(nodes, 0, no_format()).len() > 0,
    ensures
        ({
            let all = html_elements(nodes, reading);
            &&& all.len() == 1
            &&& all[0] matches ElementModel::Block(block) && {
                &&& block.spans == pieces(nodes, 0, no_format())
                &&& block.heading_level is None
                &&& block.list_style is None
                &&& !block.is_code_block
                &&& block.blockquote_depth == 0
            }
        }),
{
    let c = crate::parser_tools::html::nowhere();
    assert(c.format =~= no_format());
    line_is_collected(nodes, 0, nodes[0].children.len() as int, c, 0, reading);
}

// ─── Tables ──────────────────────────────────────────────────────────

/// Whether a node is a row whose children are all cells, at least one, with a line each.
pub open spec fn is_row(nodes: Seq<NodeModel>, i: int) -> bool {
    &&& nodes[i].value matches ValueModel::Element(name, _) && name == "tr"@
    &&& nodes[i].children.len() > 0
    &&& forall|k: int|
        0 <= k < nodes[i].children.len() ==> is_cell(nodes, #[trigger] nodes[i].children[k])
}

/// Whether a node is a cell with a line in it.
pub open spec fn is_cell(nodes: Seq<NodeModel>, i: int) -> bool {
    &&& nodes[i].value matches ValueModel::Element(name, _) && (name == "td"@ || name == "th"@)
    &&& is_line(nodes, i)
    &&& forall|m: int|
        0 <= m < nodes[i].children.len() ==> {
            let child = #[trigger] nodes[i].children[m];
            nodes[child].value matches ValueModel::Element(name, _) && name == "br"@
                ==> nodes[child].children.len() == 0
        }
}

/// The pieces of a cell: one that has none has a blank one.
pub open spec fn cell_pieces(nodes: Seq<NodeModel>, i: int) -> Seq<SpanModel> {
    let line = line_pieces(nodes, i, nodes[i].children.len() as int, no_format(), false);
    if line.len() == 0 {
        seq![blank()]
    } else {
        line
    }
}

/// The pieces of the cells of a row.
pub open spec fn row_pieces(nodes: Seq<NodeModel>, i: int) -> Seq<Seq<SpanModel>> {
    nodes[i].children.map_values(|cell: int| cell_pieces(nodes, cell))
}

proof fn cells_are_collected(nodes: Seq<NodeModel>, i: int, k: int)
    requires
        is_row(nodes, i),
        0 <= k <= nodes[i].children.len(),
    ensures
        row_cells(nodes, i, k) == row_pieces(nodes, i).take(k),
    decreases k,
{
    if k > 0 {
        cells_are_collected(nodes, i, k - 1);
        let cell = nodes[i].children[k - 1];
        assert(is_cell(nodes, cell));
        if let ValueModel::Element(name, _) = nodes[cell].value {
            names_mean(name);
        }
        let format = crate::parser_tools::html::unformatted();
        assert(format =~= no_format());
        line_is_collected_in_cell(nodes, cell, nodes[cell].children.len() as int, format, 0);
        assert(cell_content(nodes, cell) =~= cell_pieces(nodes, cell));
        assert(row_pieces(nodes, i).take(k) =~= row_pieces(nodes, i).take(k - 1).push(
            cell_pieces(nodes, cell),
        ));
    } else {
        assert(row_pieces(nodes, i).take(0) =~= Seq::empty());
    }
}

/// Whether the children of a node are all rows.
pub open spec fn holds_rows(nodes: Seq<NodeModel>, i: int) -> bool {
    forall|k: int|
        0 <= k < nodes[i].children.len() ==> is_row(nodes, #[trigger] nodes[i].children[k])
}

/// The pieces of the rows that a node holds.
pub open spec fn rows_pieces(nodes: Seq<NodeModel>, i: int) -> Seq<Seq<Seq<SpanModel>>> {
    nodes[i].children.map_values(|row: int| row_pieces(nodes, row))
}

proof fn rows_are_collected(nodes: Seq<NodeModel>, i: int, k: int, in_head: bool)
    requires
        holds_rows(nodes, i),
        0 <= k <= nodes[i].children.len(),
    ensures
        table_rows(nodes, i, k, in_head).rows == rows_pieces(nodes, i).take(k),
        table_rows(nodes, i, k, in_head).heads == if in_head {
            k
        } else {
            0
        },
    decreases k,
{
    if k > 0 {
        rows_are_collected(nodes, i, k - 1, in_head);
        let row = nodes[i].children[k - 1];
        assert(is_row(nodes, row));
        if let ValueModel::Element(name, _) = nodes[row].value {
            names_mean(name);
        }
        cells_are_collected(nodes, row, nodes[row].children.len() as int);
        assert(row_pieces(nodes, row).take(nodes[row].children.len() as int) =~= row_pieces(
            nodes,
            row,
        ));
        assert(rows_pieces(nodes, i).take(k) =~= rows_pieces(nodes, i).take(k - 1).push(
            row_pieces(nodes, row),
        ));
    } else {
        assert(rows_pieces(nodes, i).take(0) =~= Seq::empty());
    }
}

/// A table of rows is one element: row by row the pieces of its cells. Where no head is
/// marked, the first row is the head.
pub proof fn table_is_its_rows(
    nodes: Seq<NodeModel>,
    i: int,
    attrs: Attrs,
    c: Surroundings,
    depth: int,
    reading: spec_fn(Seq<char>) -> Option<i64>,
)
    requires
        nodes[i].value == ValueModel::Element("table"@, attrs),
        holds_rows(nodes, i),
        nodes[i].children.len() > 0,
        0 <= depth <= 256,
    ensures
        walked(nodes, i, c, depth, reading) == seq![
            ElementModel::Table(
                TableModel {
                    header_rows: 1,
                    rows: rows_pieces(nodes, i),
                    blockquote_depth: c.quote,
                },
            ),
        ],
{
    names_mean("table"@);
    let n = nodes[i].children.len() as int;
    rows_are_collected(nodes, i, n, false);
    assert(rows_pieces(nodes, i).take(n) =~= rows_pieces(nodes, i));
}

/// A table with a marked head and a body is one element: the rows of the head, which are
/// counted as such, and behind them those of the body.
pub proof fn table_is_its_head_and_body(
    nodes: Seq<NodeModel>,
    i: int,
    attrs: Attrs,
    head_attrs: Attrs,
    body_name: Seq<char>,
    body_attrs: Attrs,
    c: Surroundings,
    depth: int,
    reading: spec_fn(Seq<char>) -> Option<i64>,
)
    requires
        nodes[i].value == ValueModel::Element("table"@, attrs),
        nodes[i].children.len() == 2,
        i < nodes[i].children[0] < nodes.len(),
        i < nodes[i].children[1] < nodes.len(),
        nodes[nodes[i].children[0]].value == ValueModel::Element("thead"@, head_attrs),
        nodes[nodes[i].children[1]].value == ValueModel::Element(body_name, body_attrs),
        body_name == "tbody"@ || body_name == "tfoot"@,
        holds_rows(nodes, nodes[i].children[0]),
        holds_rows(nodes, nodes[i].children[1]),
        nodes[nodes[i].children[0]].children.len() > 0,
        0 <= depth <= 256,
    ensures
        ({
            let head = nodes[i].children[0];
            let body = nodes[i].children[1];
            walked(nodes, i, c, depth, reading) == seq![
                ElementModel::Table(
                    TableModel {
                        header_rows: nodes[head].children.len() as int,
                        rows: rows_pieces(nodes, head) + rows_pieces(nodes, body),
                        blockquote_depth: c.quote,
                    },
                ),
            ]
        }),
{
    let head = nodes[i].children[0];
    let body = nodes[i].children[1];
    names_mean("table"@);
    names_mean("thead"@);
    names_mean(body_name);
    let h = nodes[head].children.len() as int;
    let b = nodes[body].children.len() as int;
    rows_are_collected(nodes, head, h, true);
    rows_are_collected(nodes, body, b, false);
    assert(rows_pieces(nodes, head).take(h) =~= rows_pieces(nodes, head));
    assert(rows_pieces(nodes, body).take(b) =~= rows_pieces(nodes, body));
    let none = table_rows(nodes, i, 0, false);
    assert(none.rows.len() == 0);
    let one = table_rows(nodes, i, 1, false);
    assert(one.rows =~= rows_pieces(nodes, head));
    let two = table_rows(nodes, i, 2, false);
    assert(two.rows =~= rows_pieces(nodes, head) + rows_pieces(nodes, body));
    assert(html_table(nodes, i, c.quote).rows == two.rows);
}

} // verus!
