//! What the attributes of a Djot block, its lists and its plain text come to, stated over
//! the words and the elements.
use vstd::prelude::*;

use crate::chars::{digit, digits_of, digits_spell_the_number, number, signed_digits, trim};
use crate::entities::{Alignment, ListStyle, SemanticRole, TextDirection};
use crate::parser_tools::content_parser::{BlockModel, ElementModel, SpanModel, TableModel};
use crate::parser_tools::djot::{
    attr_from, attr_value, attrs_style, document_lines, element_lines, joined, list_model,
    overlaid, pixels, rows_lines, span_text, spans_text, DjotDelimiter, DjotList, DjotNumbering,
    StyleModel, TABLE_ANCHOR,
};
use crate::parser_tools::djot_options::DjotImportOptions;
use crate::text_laws::{is_blank, number_is_read_from_its_digits, trim_drops_what_is_around};

verus! {

/// Whether the first attribute with a key has a value.
pub open spec fn gives(
    attrs: Seq<(Seq<char>, Seq<char>)>,
    key: Seq<char>,
    value: Seq<char>,
) -> bool {
    exists|i: int|
        0 <= i < attrs.len() && (#[trigger] attrs[i]).0 == key && attrs[i].1 == value && forall|
            j: int,
        |
            0 <= j < i ==> (#[trigger] attrs[j]).0 != key
}

proof fn value_is_first(attrs: Seq<(Seq<char>, Seq<char>)>, key: Seq<char>, i: int, at: int)
    requires
        0 <= i <= at < attrs.len(),
        attrs[at].0 == key,
        forall|j: int| i <= j < at ==> (#[trigger] attrs[j]).0 != key,
    ensures
        attr_from(attrs, key, i) == Some(attrs[at].1),
    decreases at - i,
{
    if i < at {
        assert(attrs[i].0 != key);
        value_is_first(attrs, key, i + 1, at);
    }
}

proof fn value_is_there(attrs: Seq<(Seq<char>, Seq<char>)>, key: Seq<char>, i: int)
    requires
        0 <= i,
        forall|j: int| 0 <= j < i && j < attrs.len() ==> (#[trigger] attrs[j]).0 != key,
    ensures
        attr_from(attrs, key, i) matches Some(value) ==> gives(attrs, key, value),
    decreases attrs.len() - i,
{
    if i < attrs.len() && attrs[i].0 != key {
        value_is_there(attrs, key, i + 1);
    }
}

/// The value of a key is that of the first attribute with it.
pub proof fn first_value_counts(
    attrs: Seq<(Seq<char>, Seq<char>)>,
    key: Seq<char>,
    value: Seq<char>,
)
    ensures
        attr_value(attrs, key) == Some(value) <==> gives(attrs, key, value),
{
    value_is_there(attrs, key, 0);
    if gives(attrs, key, value) {
        let i = choose|i: int|
            0 <= i < attrs.len() && (#[trigger] attrs[i]).0 == key && attrs[i].1 == value
                && forall|j: int| 0 <= j < i ==> (#[trigger] attrs[j]).0 != key;
        value_is_first(attrs, key, 0, i);
    }
}

/// A block has the style that its attributes name: each key sets the field of its name, to
/// what its word says, where the options ask for it. No other key, and no other word, sets
/// anything.
pub proof fn attributes_set_what_they_name(
    attrs: Seq<(Seq<char>, Seq<char>)>,
    opts: DjotImportOptions,
)
    ensures
        ({
            let style = attrs_style(attrs, opts);
            &&& opts.alignment && gives(attrs, "alignment"@, "left"@) ==> style.alignment == Some(Alignment::Left)
            &&& opts.alignment && gives(attrs, "alignment"@, "right"@) ==> style.alignment == Some(Alignment::Right)
            &&& opts.alignment && gives(attrs, "alignment"@, "center"@) ==> style.alignment == Some(Alignment::Center)
            &&& opts.alignment && gives(attrs, "alignment"@, "justify"@) ==> style.alignment == Some(Alignment::Justify)
            &&& style.alignment is Some ==> opts.alignment && (gives(attrs, "alignment"@, "left"@) || gives(attrs, "alignment"@, "right"@) || gives(attrs, "alignment"@, "center"@) || gives(attrs, "alignment"@, "justify"@))
            &&& opts.direction && gives(attrs, "direction"@, "ltr"@) ==> style.direction == Some(TextDirection::LeftToRight)
            &&& opts.direction && gives(attrs, "direction"@, "rtl"@) ==> style.direction == Some(TextDirection::RightToLeft)
            &&& style.direction is Some ==> opts.direction && (gives(attrs, "direction"@, "ltr"@) || gives(attrs, "direction"@, "rtl"@))
            &&& opts.non_breakable_lines && gives(attrs, "non_breakable_lines"@, "true"@) ==> style.non_breakable_lines == Some(true)
            &&& opts.non_breakable_lines && gives(attrs, "non_breakable_lines"@, "false"@) ==> style.non_breakable_lines == Some(false)
            &&& style.non_breakable_lines is Some ==> opts.non_breakable_lines && (gives(attrs, "non_breakable_lines"@, "true"@) || gives(attrs, "non_breakable_lines"@, "false"@))
            &&& opts.page_break_before && gives(attrs, "page_break_before"@, "true"@) ==> style.page_break_before == Some(true)
            &&& opts.page_break_before && gives(attrs, "page_break_before"@, "false"@) ==> style.page_break_before == Some(false)
            &&& style.page_break_before is Some ==> opts.page_break_before && (gives(attrs, "page_break_before"@, "true"@) || gives(attrs, "page_break_before"@, "false"@))
            &&& opts.semantic_role && gives(attrs, "semantic_role"@, "epigraph"@) ==> style.semantic_role == Some(SemanticRole::Epigraph)
            &&& style.semantic_role is Some ==> opts.semantic_role && (gives(attrs, "semantic_role"@, "epigraph"@))
            &&& opts.background_color ==> forall|value: Seq<char>|
                style.background_color == Some(value) <==> #[trigger] gives(
                    attrs,
                    "background_color"@,
                    value,
                )
            &&& !opts.background_color ==> style.background_color is None
            &&& opts.line_height ==> forall|value: Seq<char>| #[trigger]
                gives(attrs, "line_height"@, value) ==> style.line_height == number(value)
            &&& style.line_height is Some ==> opts.line_height && exists|value: Seq<char>| #[trigger]
                gives(attrs, "line_height"@, value)
            &&& opts.top_margin ==> forall|value: Seq<char>| #[trigger]
                gives(attrs, "top_margin"@, value) ==> style.top_margin == number(value)
            &&& style.top_margin is Some ==> opts.top_margin && exists|value: Seq<char>| #[trigger]
                gives(attrs, "top_margin"@, value)
            &&& opts.text_indent ==> forall|value: Seq<char>| #[trigger]
                gives(attrs, "text_indent"@, value) ==> style.text_indent == number(value)
            &&& style.text_indent is Some ==> opts.text_indent && exists|value: Seq<char>| #[trigger]
                gives(attrs, "text_indent"@, value)
        }),
{
    reveal_strlit("center");
    reveal_strlit("epigraph");
    reveal_strlit("false");
    reveal_strlit("justify");
    reveal_strlit("left");
    reveal_strlit("ltr");
    reveal_strlit("right");
    reveal_strlit("rtl");
    reveal_strlit("true");
    assert("left"@.len() == 4 && "right"@.len() == 5 && "center"@.len() == 6 && "justify"@.len()
        == 7);
    assert("ltr"@[0] == 'l' && "rtl"@[0] == 'r');
    assert("true"@.len() == 4 && "false"@.len() == 5);
    assert forall|key: Seq<char>, value: Seq<char>| #[trigger]
        gives(attrs, key, value) implies attr_value(attrs, key) == Some(value) by {
        first_value_counts(attrs, key, value);
    }
    assert forall|key: Seq<char>| attr_value(attrs, key) is Some implies gives(
        attrs,
        key,
        (#[trigger] attr_value(attrs, key))->0,
    ) by {
        first_value_counts(attrs, key, attr_value(attrs, key)->0);
    }
}

/// A number among the attributes is read from its digits.
pub proof fn number_attributes_are_read(
    attrs: Seq<(Seq<char>, Seq<char>)>,
    opts: DjotImportOptions,
    n: i64,
)
    ensures
        ({
            let style = attrs_style(attrs, opts);
            &&& opts.line_height && gives(attrs, "line_height"@, signed_digits(n as int)) ==> style.line_height
                == Some(n)
            &&& opts.top_margin && gives(attrs, "top_margin"@, signed_digits(n as int)) ==> style.top_margin
                == Some(n)
            &&& opts.text_indent && gives(attrs, "text_indent"@, signed_digits(n as int)) ==> style.text_indent
                == Some(n)
        }),
{
    number_is_read_from_its_digits(n);
    attributes_set_what_they_name(attrs, opts);
}

/// Of two styles the one that is laid over wins, field by field, where it says something.
pub proof fn what_is_laid_over_wins(under: StyleModel, over: StyleModel)
    ensures
        ({
            let both = overlaid(under, over);
            &&& over.alignment is Some ==> both.alignment == over.alignment
            &&& over.alignment is None ==> both.alignment == under.alignment
            &&& over.line_height is Some ==> both.line_height == over.line_height
            &&& over.line_height is None ==> both.line_height == under.line_height
            &&& over.non_breakable_lines is Some ==> both.non_breakable_lines == over.non_breakable_lines
            &&& over.non_breakable_lines is None ==> both.non_breakable_lines == under.non_breakable_lines
            &&& over.page_break_before is Some ==> both.page_break_before == over.page_break_before
            &&& over.page_break_before is None ==> both.page_break_before == under.page_break_before
            &&& over.direction is Some ==> both.direction == over.direction
            &&& over.direction is None ==> both.direction == under.direction
            &&& over.background_color is Some ==> both.background_color == over.background_color
            &&& over.background_color is None ==> both.background_color == under.background_color
            &&& over.top_margin is Some ==> both.top_margin == over.top_margin
            &&& over.top_margin is None ==> both.top_margin == under.top_margin
            &&& over.text_indent is Some ==> both.text_indent == over.text_indent
            &&& over.text_indent is None ==> both.text_indent == under.text_indent
            &&& over.semantic_role is Some ==> both.semantic_role == over.semantic_role
            &&& over.semantic_role is None ==> both.semantic_role == under.semantic_role
        }),
{
}

/// A size in pixels is read from its digits, whatever white space stands around them; one
/// that is not positive, or no number, or not there, is zero.
pub proof fn pixels_are_read(before: Seq<char>, n: i64, behind: Seq<char>, other: Seq<char>)
    requires
        is_blank(before),
        is_blank(behind),
        number(trim(other)) is None,
    ensures
        n > 0 ==> pixels(Some(before + signed_digits(n as int) + behind)) == n,
        n <= 0 ==> pixels(Some(before + signed_digits(n as int) + behind)) == 0,
        pixels(Some(other)) == 0,
        pixels(None) == 0,
{
    let text = signed_digits(n as int);
    let size: nat = if n < 0 {
        (-n) as nat
    } else {
        n as nat
    };
    let digits = digits_of(size);
    digits_spell_the_number(size);
    assert(digit(digits[0]));
    assert(digit(digits.last()));
    assert(text.last() == digits.last());
    number_is_read_from_its_digits(n);
    trim_drops_what_is_around(before, text, behind);
}

/// A bullet of each kind, a numbering and a delimiter each have a style or an affix of
/// their own.
pub proof fn lists_look_like_their_markers(numbering: DjotNumbering, delimiter: DjotDelimiter)
    ensures
        list_model(DjotList::Bullet('-')).style == ListStyle::Disc,
        list_model(DjotList::Bullet('*')).style == ListStyle::Circle,
        list_model(DjotList::Bullet('+')).style == ListStyle::Square,
        forall|bullet: char|
            (#[trigger] list_model(DjotList::Bullet(bullet))).prefix == Seq::<char>::empty()
                && list_model(DjotList::Bullet(bullet)).suffix == Seq::<char>::empty(),
        ({
            let list = list_model(DjotList::Ordered(numbering, delimiter));
            &&& numbering is Decimal ==> list.style == ListStyle::Decimal
            &&& numbering is AlphaLower ==> list.style == ListStyle::LowerAlpha
            &&& numbering is AlphaUpper ==> list.style == ListStyle::UpperAlpha
            &&& numbering is RomanLower ==> list.style == ListStyle::LowerRoman
            &&& numbering is RomanUpper ==> list.style == ListStyle::UpperRoman
            &&& delimiter is Period ==> list.prefix.len() == 0 && list.suffix == seq!['.']
            &&& delimiter is Paren ==> list.prefix.len() == 0 && list.suffix == seq![')']
            &&& delimiter is ParenParen ==> list.prefix == seq!['('] && list.suffix == seq![')']
        }),
{
    reveal_strlit(".");
    reveal_strlit("(");
    reveal_strlit(")");
    assert("."@ =~= seq!['.']);
    assert("("@ =~= seq!['(']);
    assert(")"@ =~= seq![')']);
}

// ─── Plain text ──────────────────────────────────────────────────────

/// The prose of spans is that of each in turn: its text, or one sentinel for an object.
pub proof fn prose_is_that_of_its_spans(a: Seq<SpanModel>, b: Seq<SpanModel>, span: SpanModel)
    ensures
        spans_text(Seq::empty()) == Seq::<char>::empty(),
        spans_text(a + b) == spans_text(a) + spans_text(b),
        span.image is None && span.footnote_ref is None ==> spans_text(seq![span]) == span.text,
        span.image is Some || span.footnote_ref is Some ==> spans_text(seq![span]) == seq![
            '\u{FFFC}',
        ],
    decreases b.len(),
{
    assert(seq![span].drop_last() =~= Seq::<SpanModel>::empty());
    assert(spans_text(seq![span]) =~= spans_text(Seq::empty()) + span_text(
        span,
    ));
    if b.len() == 0 {
        assert(a + b =~= a);
        assert(spans_text(a) + spans_text(b) =~= spans_text(a));
    } else {
        prose_is_that_of_its_spans(a, b.drop_last(), span);
        assert((a + b).drop_last() =~= a + b.drop_last());
        assert((a + b).last() == b.last());
    }
}

proof fn rows_add_up(a: Seq<Seq<Seq<SpanModel>>>, b: Seq<Seq<Seq<SpanModel>>>)
    ensures
        rows_lines(a + b) == rows_lines(a) + rows_lines(b),
    decreases b.len(),
{
    if b.len() == 0 {
        assert(a + b =~= a);
        assert(rows_lines(a) + rows_lines(b) =~= rows_lines(a));
    } else {
        rows_add_up(a, b.drop_last());
        assert((a + b).drop_last() =~= a + b.drop_last());
        assert((a + b).last() == b.last());
    }
}

/// The cells of a table are a line each, row by row and from the first to the last.
pub proof fn cells_are_lines(
    above: Seq<Seq<Seq<SpanModel>>>,
    row: Seq<Seq<SpanModel>>,
    below: Seq<Seq<Seq<SpanModel>>>,
)
    ensures
        rows_lines(Seq::empty()) == Seq::<Seq<char>>::empty(),
        rows_lines(above + seq![row] + below) == rows_lines(above) + rows_lines(seq![row])
            + rows_lines(below),
        rows_lines(seq![row]).len() == row.len(),
        forall|c: int|
            0 <= c < row.len() ==> #[trigger] rows_lines(seq![row])[c] == spans_text(row[c]),
{
    rows_add_up(above, seq![row]);
    rows_add_up(above + seq![row], below);
    assert(seq![row].drop_last() =~= Seq::<Seq<Seq<SpanModel>>>::empty());
    assert(rows_lines(Seq::<Seq<Seq<SpanModel>>>::empty()) =~= Seq::<Seq<char>>::empty());
    assert(rows_lines(seq![row]) =~= row.map_values(|cell: Seq<SpanModel>| spans_text(cell)));
}

proof fn lines_add_up(a: Seq<ElementModel>, b: Seq<ElementModel>)
    ensures
        document_lines(a + b) == document_lines(a) + document_lines(b),
    decreases b.len(),
{
    if b.len() == 0 {
        assert(a + b =~= a);
        assert(document_lines(a) + document_lines(b) =~= document_lines(a));
    } else {
        lines_add_up(a, b.drop_last());
        assert((a + b).drop_last() =~= a + b.drop_last());
        assert((a + b).last() == b.last());
    }
}

/// A document is its lines in order: a block is one, its prose; a table is an anchor and
/// then its cells; a footnote is none.
pub proof fn elements_are_lines(
    before: Seq<ElementModel>,
    block: BlockModel,
    table: TableModel,
    note: ElementModel,
    behind: Seq<ElementModel>,
)
    requires
        note is FootnoteDefinition,
    ensures
        document_lines(before + seq![ElementModel::Block(block)] + behind) == document_lines(
            before,
        ) + seq![spans_text(block.spans)] + document_lines(behind),
        document_lines(before + seq![ElementModel::Table(table)] + behind) == document_lines(
            before,
        ) + seq![seq!['\u{FFFC}']] + rows_lines(table.rows) + document_lines(behind),
        document_lines(before + seq![note] + behind) == document_lines(before) + document_lines(
            behind,
        ),
        document_lines(Seq::empty()) == Seq::<Seq<char>>::empty(),
{
    element_adds_its_lines(before, ElementModel::Block(block), behind);
    element_adds_its_lines(before, ElementModel::Table(table), behind);
    element_adds_its_lines(before, note, behind);
}

proof fn element_adds_its_lines(
    before: Seq<ElementModel>,
    element: ElementModel,
    behind: Seq<ElementModel>,
)
    ensures
        document_lines(before + seq![element] + behind) == document_lines(before)
            + element_lines(element) + document_lines(behind),
{
    lines_add_up(before, seq![element]);
    lines_add_up(before + seq![element], behind);
    assert(seq![element].drop_last() =~= Seq::<ElementModel>::empty());
    assert(document_lines(Seq::<ElementModel>::empty()) =~= Seq::<Seq<char>>::empty());
    assert(document_lines(seq![element]) =~= element_lines(element));
}

/// Lines are joined by one newline between each two, and by nothing else.
pub proof fn lines_are_joined_by_newlines(a: Seq<Seq<char>>, b: Seq<Seq<char>>, line: Seq<char>)
    ensures
        joined(Seq::empty()) == Seq::<char>::empty(),
        joined(seq![line]) == line,
        a.len() > 0 && b.len() > 0 ==> joined(a + b) == joined(a) + seq!['\n'] + joined(b),
    decreases b.len(),
{
    if a.len() > 0 && b.len() > 0 {
        assert((a + b).drop_last() =~= a + b.drop_last());
        assert((a + b).last() == b.last());
        if b.len() == 1 {
            assert(a + b.drop_last() =~= a);
        } else {
            lines_are_joined_by_newlines(a, b.drop_last(), line);
            assert(joined(a + b) =~= joined(a) + seq!['\n'] + joined(b));
        }
    }
}

/// A table is announced by the sentinel that stands for an object.
pub proof fn tables_are_announced_by_a_sentinel()
    ensures
        TABLE_ANCHOR@ == seq!['\u{FFFC}'],
{
    reveal_strlit("\u{FFFC}");
    assert(TABLE_ANCHOR@ =~= seq!['\u{FFFC}']);
}

} // verus!
