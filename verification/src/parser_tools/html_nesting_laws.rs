//! What the HTML reader makes of elements in elements, stated over their names.
use vstd::prelude::*;

use crate::parser_tools::content_parser::{empty_span, ElementModel, SpanModel};
use crate::parser_tools::html::{
    cell_children, cell_content, cell_spans, collected, collected_children, grow, grown,
    html_attr, html_elements, html_tag, image_span, inner_format, inside, nowhere, row_cells,
    table_rows, tree_of, walked, walked_children, EdgeModel, FormatState, NodeModel, Surroundings,
    ValueModel, MAX_RECURSION_DEPTH,
};
use crate::parser_tools::html_laws::{
    blank, has_level, names_a_block, names_a_heading, names_a_line, names_mean, no_format,
    pictures, plain, surrounded, Attrs,
};

verus! {

/// The formatting inside an element: bold in `b` and `strong`, in italics in `i` and `em`,
/// underlined in `u` and `ins`, struck out in `s`, `del` and `strike`, code in `code`, a link
/// in an `a` with a target; all of it beside the formatting around.
pub open spec fn dressed(format: FormatState, name: Seq<char>, attrs: Attrs) -> FormatState {
    FormatState {
        bold: format.bold || name == "b"@ || name == "strong"@,
        italic: format.italic || name == "i"@ || name == "em"@,
        underline: format.underline || name == "u"@ || name == "ins"@,
        strikeout: format.strikeout || name == "s"@ || name == "del"@ || name == "strike"@,
        code: format.code || name == "code"@,
        link: if name == "a"@ && html_attr(attrs, "href"@) is Some {
            html_attr(attrs, "href"@)
        } else {
            format.link
        },
    }
}

proof fn names_dress(format: FormatState, name: Seq<char>, attrs: Attrs)
    ensures
        inner_format(format, html_tag(name), attrs) == dressed(format, name, attrs),
{
    names_mean(name);
    reveal_strlit("b");
    reveal_strlit("i");
    reveal_strlit("u");
    reveal_strlit("s");
    reveal_strlit("a");
    assert(inner_format(format, html_tag(name), attrs) =~= dressed(format, name, attrs));
}

/// A block reads its children from the first to the last. Text joins its line in the
/// formatting that is open, and so does what is in an element that is no block, in the
/// formatting of its name besides; an element that is a block comes behind this one.
pub proof fn children_join_the_line(
    nodes: Seq<NodeModel>,
    i: int,
    k: int,
    c: Surroundings,
    depth: int,
    reading: spec_fn(Seq<char>) -> Option<i64>,
)
    requires
        0 < k <= nodes[i].children.len(),
        0 <= depth <= 256,
    ensures
        ({
            let rest = collected_children(nodes, i, k - 1, c, depth, reading);
            let all = collected_children(nodes, i, k, c, depth, reading);
            let child = nodes[i].children[k - 1];
            match nodes[child].value {
                ValueModel::Text(text) => {
                    &&& all.elements == rest.elements
                    &&& text.len() > 0 ==> all.spans == rest.spans + seq![plain(c.format, text)]
                    &&& text.len() == 0 ==> all.spans == rest.spans
                },
                ValueModel::Other => all == rest,
                ValueModel::Element(name, attrs) => {
                    if name == "img"@ {
                        &&& all.elements == rest.elements
                        &&& all.spans == rest.spans + pictures(attrs, c.format.link)
                    } else if name == "br"@ {
                        &&& all.elements == rest.elements
                        &&& all.spans == rest.spans + seq![blank()]
                    } else if names_a_block(name) {
                        &&& all.spans == rest.spans
                        &&& all.elements == rest.elements + walked(
                            nodes,
                            child,
                            c,
                            depth + 1,
                            reading,
                        )
                    } else {
                        let inner = Surroundings { format: dressed(c.format, name, attrs), ..c };
                        let found = collected(nodes, child, inner, depth + 1, reading);
                        &&& all.spans == rest.spans + found.spans
                        &&& all.elements == rest.elements + found.elements
                    }
                },
            }
        }),
        collected_children(nodes, i, 0, c, depth, reading).spans.len() == 0,
        collected_children(nodes, i, 0, c, depth, reading).elements.len() == 0,
        collected(nodes, i, c, depth, reading) == collected_children(
            nodes,
            i,
            nodes[i].children.len() as int,
            c,
            depth,
            reading,
        ),
{
    let rest = collected_children(nodes, i, k - 1, c, depth, reading);
    let all = collected_children(nodes, i, k, c, depth, reading);
    let child = nodes[i].children[k - 1];
    match nodes[child].value {
        ValueModel::Text(text) => {
            assert(crate::parser_tools::html::html_span(c.format, text) =~= plain(c.format, text));
        },
        ValueModel::Other => {},
        ValueModel::Element(name, attrs) => {
            names_mean(name);
            names_dress(c.format, name, attrs);
            assert(empty_span() =~= blank());
            if name == "img"@ {
                image_is_a_picture(attrs, c.format.link);
                assert(all.spans =~= rest.spans + pictures(attrs, c.format.link));
            } else if names_a_block(name) {
                assert(dressed(c.format, name, attrs) =~= c.format) by {
                    names_mean(name);
                    assert(inner_format(c.format, html_tag(name), attrs) == c.format);
                }
                let inner = Surroundings {
                    format: inner_format(c.format, html_tag(name), attrs),
                    ..c
                };
                assert(inner =~= c);
            }
        },
    }
}

proof fn image_is_a_picture(attrs: Attrs, link: Option<Seq<char>>)
    ensures
        image_span(attrs, link) matches Some(span) ==> pictures(attrs, link) == seq![span],
        image_span(attrs, link) is None ==> pictures(attrs, link) == Seq::<SpanModel>::empty(),
{
    if let Some(span) = image_span(attrs, link) {
        assert(pictures(attrs, link).len() == 1);
        assert(pictures(attrs, link)[0] =~= span);
        assert(pictures(attrs, link) =~= seq![span]);
    }
}

/// A cell reads its children in the same way, but that all of it is one line.
pub proof fn children_join_the_cell(
    nodes: Seq<NodeModel>,
    i: int,
    k: int,
    format: FormatState,
    depth: int,
)
    requires
        0 < k <= nodes[i].children.len(),
        0 <= depth <= 256,
    ensures
        ({
            let rest = cell_children(nodes, i, k - 1, format, depth);
            let all = cell_children(nodes, i, k, format, depth);
            let child = nodes[i].children[k - 1];
            match nodes[child].value {
                ValueModel::Text(text) => {
                    &&& text.len() > 0 ==> all == rest + seq![plain(format, text)]
                    &&& text.len() == 0 ==> all == rest
                },
                ValueModel::Other => all == rest,
                ValueModel::Element(name, attrs) => if name == "img"@ {
                    all == rest + pictures(attrs, format.link)
                } else {
                    all == rest + cell_spans(
                        nodes,
                        child,
                        dressed(format, name, attrs),
                        depth + 1,
                    )
                },
            }
        }),
        cell_children(nodes, i, 0, format, depth).len() == 0,
        cell_spans(nodes, i, format, depth) == cell_children(
            nodes,
            i,
            nodes[i].children.len() as int,
            format,
            depth,
        ),
        cell_content(nodes, i) == if cell_spans(nodes, i, no_format(), 0).len() > 0 {
            cell_spans(nodes, i, no_format(), 0)
        } else {
            seq![blank()]
        },
{
    let rest = cell_children(nodes, i, k - 1, format, depth);
    let all = cell_children(nodes, i, k, format, depth);
    let child = nodes[i].children[k - 1];
    assert(crate::parser_tools::html::unformatted() =~= no_format());
    assert(empty_span() =~= blank());
    match nodes[child].value {
        ValueModel::Text(text) => {
            assert(crate::parser_tools::html::html_span(format, text) =~= plain(format, text));
            if text.len() == 0 {
                assert(all =~= rest);
            }
        },
        ValueModel::Other => {
            assert(all =~= rest);
        },
        ValueModel::Element(name, attrs) => {
            names_mean(name);
            names_dress(format, name, attrs);
            image_is_a_picture(attrs, format.link);
        },
    }
}

/// A block element is one block of what its children give to its line, and behind it what
/// they give besides. One that has no line of its own is no block, unless it is a heading.
pub proof fn block_comes_before_what_is_in_it(
    nodes: Seq<NodeModel>,
    i: int,
    name: Seq<char>,
    attrs: Attrs,
    c: Surroundings,
    depth: int,
    reading: spec_fn(Seq<char>) -> Option<i64>,
)
    requires
        nodes[i].value == ValueModel::Element(name, attrs),
        names_a_line(name) || name == "body"@ || name == "html"@,
        0 <= depth <= 256,
    ensures
        ({
            let all = walked(nodes, i, c, depth, reading);
            let found = collected(nodes, i, c, depth + 1, reading);
            if found.spans.len() == 0 && !names_a_heading(name) {
                all == found.elements
            } else {
                &&& all.len() == 1 + found.elements.len()
                &&& all.skip(1) == found.elements
                &&& all[0] matches ElementModel::Block(block) && {
                    &&& block.spans == found.spans
                    &&& has_level(block, name)
                    &&& block.list_style == if name == "li"@ {
                        c.list_style
                    } else {
                        None
                    }
                    &&& name == "li"@ && c.list_depth > 0 ==> block.list_indent == c.list_depth - 1
                    &&& name != "li"@ || c.list_depth <= 0 ==> block.list_indent == 0
                    &&& block.is_code_block == (name == "pre"@)
                    &&& block.blockquote_depth == c.quote
                    &&& name != "pre"@ ==> block.code_language is None
                }
            }
        }),
{
    names_mean(name);
    names_dress(c.format, name, attrs);
    let inner = inside(c, html_tag(name), attrs);
    assert(inner_format(c.format, html_tag(name), attrs) == c.format);
    assert(inner =~= c);
    reveal_strlit("li");
    reveal_strlit("pre");
    let all = walked(nodes, i, c, depth, reading);
    let found = collected(nodes, i, c, depth + 1, reading);
    if found.spans.len() > 0 || names_a_heading(name) {
        assert(all.skip(1) =~= found.elements);
    }
}

/// Among blocks, an element that is no block, no table and no break is what its children
/// are, in the formatting of its name besides; a list or a blockquote surrounds them.
pub proof fn other_elements_are_their_children(
    nodes: Seq<NodeModel>,
    i: int,
    name: Seq<char>,
    attrs: Attrs,
    c: Surroundings,
    depth: int,
    reading: spec_fn(Seq<char>) -> Option<i64>,
)
    requires
        nodes[i].value == ValueModel::Element(name, attrs),
        !names_a_line(name),
        name != "body"@,
        name != "html"@,
        name != "table"@,
        name != "br"@,
        0 <= depth <= 256,
    ensures
        walked(nodes, i, c, depth, reading) == walked_children(
            nodes,
            i,
            nodes[i].children.len() as int,
            (Surroundings {
                format: dressed(c.format, name, attrs),
                ..surrounded(c, name)
            }),
            depth + 1,
            reading,
        ),
{
    names_mean(name);
    names_dress(c.format, name, attrs);
    reveal_strlit("ul");
    reveal_strlit("ol");
    reveal_strlit("blockquote");
    assert("ul"@[0] == 'u' && "ol"@[0] == 'o' && "blockquote"@.len() == 10);
    assert(inside(c, html_tag(name), attrs) =~= (Surroundings {
        format: dressed(c.format, name, attrs),
        ..surrounded(c, name)
    }));
}

/// A document is what its root gives: blocks first, and what stands outside of them as one
/// last paragraph. Where there is nothing it is an empty paragraph.
pub proof fn document_is_what_its_root_gives(
    nodes: Seq<NodeModel>,
    reading: spec_fn(Seq<char>) -> Option<i64>,
)
    requires
        nodes.len() > 0,
    ensures
        ({
            let c = Surroundings {
                format: no_format(),
                list_style: None,
                quote: 0,
                list_depth: 0,
            };
            let found = collected(nodes, 0, c, 0, reading);
            let all = html_elements(nodes, reading);
            &&& found.spans.len() == 0 && found.elements.len() > 0 ==> all == found.elements
            &&& found.spans.len() > 0 ==> {
                &&& all.len() == found.elements.len() + 1
                &&& all.drop_last() == found.elements
                &&& is_bare_paragraph(all.last(), found.spans)
            }
            &&& found.spans.len() == 0 && found.elements.len() == 0 ==> {
                &&& all.len() == 1
                &&& is_bare_paragraph(all[0], seq![blank()])
            }
        }),
{
    let c = Surroundings { format: no_format(), list_style: None, quote: 0, list_depth: 0 };
    assert(nowhere() =~= c);
    assert(empty_span() =~= blank());
    let found = collected(nodes, 0, c, 0, reading);
    let all = html_elements(nodes, reading);
    if found.spans.len() > 0 {
        assert(all.drop_last() =~= found.elements);
    }
}

/// Whether an element is a paragraph of some spans that says nothing of itself.
pub open spec fn is_bare_paragraph(element: ElementModel, spans: Seq<SpanModel>) -> bool {
    element matches ElementModel::Block(block) && {
        &&& block.spans == spans
        &&& block.heading_level is None
        &&& block.list_style is None
        &&& block.list_indent == 0
        &&& block.list_prefix.len() == 0
        &&& block.list_suffix.len() == 0
        &&& block.marker is None
        &&& !block.is_code_block
        &&& block.code_language is None
        &&& block.blockquote_depth == 0
        &&& block.line_height is None
        &&& block.non_breakable_lines is None
        &&& block.page_break_before is None
        &&& block.direction is None
        &&& block.background_color is None
        &&& block.alignment is None
        &&& block.top_margin is None
        &&& block.text_indent is None
        &&& block.semantic_role is None
    }
}

// ─── Tables ──────────────────────────────────────────────────────────

/// A table reads its children from the first to the last: a row with a cell in it is one
/// of its rows, and a part of it has rows of its own, those of its head as such; anything
/// else is not read.
pub proof fn table_reads_rows_and_parts(nodes: Seq<NodeModel>, i: int, k: int, in_head: bool)
    requires
        0 < k <= nodes[i].children.len(),
    ensures
        ({
            let rest = table_rows(nodes, i, k - 1, in_head);
            let all = table_rows(nodes, i, k, in_head);
            let child = nodes[i].children[k - 1];
            let n = nodes[child].children.len() as int;
            match nodes[child].value {
                ValueModel::Element(name, _) => {
                    if name == "tr"@ {
                        let cells = row_cells(nodes, child, n);
                        &&& cells.len() == 0 ==> all == rest
                        &&& cells.len() > 0 ==> all.rows == rest.rows + seq![cells]
                        &&& cells.len() > 0 ==> all.heads == rest.heads + if in_head {
                            1int
                        } else {
                            0int
                        }
                    } else if (name == "thead"@ || name == "tbody"@ || name == "tfoot"@) && i
                        < child < nodes.len() {
                        let part = table_rows(nodes, child, n, name == "thead"@);
                        &&& all.rows == rest.rows + part.rows
                        &&& all.heads == rest.heads + part.heads
                    } else {
                        all == rest
                    }
                },
                _ => all == rest,
            }
        }),
        table_rows(nodes, i, 0, in_head).rows.len() == 0,
        table_rows(nodes, i, 0, in_head).heads == 0,
{
    let child = nodes[i].children[k - 1];
    reveal_strlit("thead");
    reveal_strlit("tbody");
    reveal_strlit("tfoot");
    assert("thead"@[1] == 'h' && "tbody"@[1] == 'b' && "tfoot"@[1] == 'f');
    if let ValueModel::Element(name, _) = nodes[child].value {
        names_mean(name);
    }
}

/// A row reads its children from the first to the last: each cell is one of its cells, and
/// anything else is not read.
pub proof fn row_reads_cells(nodes: Seq<NodeModel>, i: int, k: int)
    requires
        0 < k <= nodes[i].children.len(),
    ensures
        ({
            let rest = row_cells(nodes, i, k - 1);
            let child = nodes[i].children[k - 1];
            match nodes[child].value {
                ValueModel::Element(name, _) => if name == "td"@ || name == "th"@ {
                    row_cells(nodes, i, k) == rest + seq![cell_content(nodes, child)]
                } else {
                    row_cells(nodes, i, k) == rest
                },
                _ => row_cells(nodes, i, k) == rest,
            }
        }),
        row_cells(nodes, i, 0).len() == 0,
{
    let child = nodes[i].children[k - 1];
    if let ValueModel::Element(name, _) = nodes[child].value {
        names_mean(name);
    }
}

/// A table element is one table where it has a row: its first row is the head where no
/// row is marked as one.
pub proof fn table_has_a_head(
    nodes: Seq<NodeModel>,
    i: int,
    attrs: Attrs,
    c: Surroundings,
    depth: int,
    reading: spec_fn(Seq<char>) -> Option<i64>,
)
    requires
        nodes[i].value == ValueModel::Element("table"@, attrs),
        0 <= depth <= 256,
    ensures
        ({
            let found = table_rows(nodes, i, nodes[i].children.len() as int, false);
            let all = walked(nodes, i, c, depth, reading);
            &&& found.rows.len() == 0 ==> all.len() == 0
            &&& found.rows.len() > 0 ==> {
                &&& all.len() == 1
                &&& all[0] matches ElementModel::Table(table) && {
                    &&& table.rows == found.rows
                    &&& table.blockquote_depth == c.quote
                    &&& found.heads > 0 ==> table.header_rows == found.heads
                    &&& found.heads == 0 ==> table.header_rows == 1
                }
            }
        }),
{
    names_mean("table"@);
}

// ─── The tree ────────────────────────────────────────────────────────

/// How many elements more are entered than left.
pub open spec fn level(edges: Seq<EdgeModel>) -> int
    decreases edges.len(),
{
    if edges.len() == 0 {
        0
    } else if edges.last() is Open {
        level(edges.drop_last()) + 1
    } else {
        level(edges.drop_last()) - 1
    }
}

/// Whether each element that is entered is left again, and no other.
pub open spec fn is_balanced(edges: Seq<EdgeModel>) -> bool {
    &&& level(edges) == 0
    &&& forall|m: int| 0 <= m <= edges.len() ==> level(#[trigger] edges.take(m)) >= 0
}

proof fn what_is_open_stays(before: Seq<EdgeModel>, inner: Seq<EdgeModel>)
    requires
        forall|m: int| 0 <= m <= inner.len() ==> level(#[trigger] inner.take(m)) >= 0,
    ensures
        ({
            let g = grown(before);
            let h = grown(before + inner);
            let n = g.entered.len();
            &&& h.entered.len() == n + level(inner)
            &&& h.entered.take(n as int) == g.entered
        }),
    decreases inner.len(),
{
    let g = grown(before);
    let n = g.entered.len();
    if inner.len() == 0 {
        assert(before + inner =~= before);
        assert(g.entered.take(n as int) =~= g.entered);
    } else {
        let less = inner.drop_last();
        assert forall|m: int| 0 <= m <= less.len() implies level(#[trigger] less.take(m)) >= 0 by {
            assert(less.take(m) =~= inner.take(m));
        }
        what_is_open_stays(before, less);
        assert((before + inner).drop_last() =~= before + less);
        assert((before + inner).last() == inner.last());
        assert(inner.take(inner.len() as int) =~= inner);
        let h = grown(before + less);
        let last = grown(before + inner);
        assert(last.entered.take(n as int) =~= h.entered.take(n as int));
    }
}

proof fn what_is_open_is_there(edges: Seq<EdgeModel>)
    ensures
        forall|k: int|
            0 <= k < grown(edges).entered.len() ==> 0 <= #[trigger] grown(edges).entered[k]
                < grown(edges).nodes.len(),
    decreases edges.len(),
{
    if edges.len() > 0 {
        what_is_open_is_there(edges.drop_last());
        let g = grown(edges.drop_last());
        let h = grown(edges);
        assert(h == grow(g, edges.last()));
        assert forall|k: int| 0 <= k < h.entered.len() implies 0 <= #[trigger] h.entered[k]
            < h.nodes.len() by {
            if k < g.entered.len() {
                assert(h.entered[k] == g.entered[k]);
            }
        }
    }
}

/// The node of an element that is entered comes behind all others; it is the last child of
/// the innermost element that is open, and has no children yet. No other node is touched.
/// To leave an element touches none.
pub proof fn nodes_join_the_innermost(edges: Seq<EdgeModel>, value: ValueModel, j: int)
    ensures
        ({
            let g = grown(edges);
            let old = tree_of(edges);
            let new = tree_of(edges.push(EdgeModel::Open(value)));
            let id = old.len() as int;
            &&& new.len() == old.len() + 1
            &&& new[id].value == value
            &&& new[id].children.len() == 0
            &&& 0 <= j < id && g.entered.len() > 0 && j == g.entered.last() ==> new[j].value
                == old[j].value && new[j].children == old[j].children + seq![id]
            &&& 0 <= j < id && (g.entered.len() == 0 || j != g.entered.last()) ==> new[j] == old[j]
            &&& grown(edges.push(EdgeModel::Open(value))).entered == g.entered + seq![id]
            &&& tree_of(edges.push(EdgeModel::Close)) == old
            &&& g.entered.len() > 0 ==> grown(edges.push(EdgeModel::Close)).entered
                == g.entered.drop_last()
        }),
        tree_of(Seq::empty()).len() == 0,
        grown(Seq::empty()).entered.len() == 0,
{
    what_is_open_is_there(edges);
    assert(edges.push(EdgeModel::Open(value)).drop_last() =~= edges);
    assert(edges.push(EdgeModel::Close).drop_last() =~= edges);
    let g = grown(edges);
    let id = g.nodes.len() as int;
    if g.entered.len() > 0 {
        let at = g.entered.last();
        if 0 <= j < id && j == at {
            let new = tree_of(edges.push(EdgeModel::Open(value)));
            assert(new[j].children =~= g.nodes[j].children + seq![id]);
        }
    }
    assert(grown(edges.push(EdgeModel::Open(value))).entered =~= g.entered + seq![id]);
}

/// What is left again has no say in what comes behind it: behind a stretch in which each
/// element that is entered is left, the same elements are open as before it.
pub proof fn what_is_left_is_done(before: Seq<EdgeModel>, inner: Seq<EdgeModel>)
    requires
        is_balanced(inner),
    ensures
        grown(before + inner).entered == grown(before).entered,
{
    what_is_open_stays(before, inner);
    let h = grown(before + inner);
    assert(h.entered.take(h.entered.len() as int) =~= h.entered);
}

/// A document is followed 256 elements deep; what lies deeper is not read.
pub proof fn what_lies_too_deep_is_not_read(
    nodes: Seq<NodeModel>,
    i: int,
    c: Surroundings,
    depth: int,
    reading: spec_fn(Seq<char>) -> Option<i64>,
)
    requires
        depth > 256,
    ensures
        walked(nodes, i, c, depth, reading).len() == 0,
        collected(nodes, i, c, depth, reading).spans.len() == 0,
        collected(nodes, i, c, depth, reading).elements.len() == 0,
        cell_spans(nodes, i, c.format, depth).len() == 0,
        MAX_RECURSION_DEPTH == 256,
{
}

} // verus!
