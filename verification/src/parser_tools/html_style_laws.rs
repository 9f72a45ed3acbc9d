//! What the styles, sizes and classes of HTML elements come to, stated over their words.
use vstd::prelude::*;

use crate::chars::{
    begins_with, digit, digits_of, digits_spell_the_number, lowered, number, signed_digits, trim,
    white_space,
};
use crate::entities::TextDirection;
use crate::parser_tools::html::{
    css_declaration, css_from, css_of, css_part, html_pixels, language_word, next_char, no_css,
    without_px, CssModel,
};
use crate::text_laws::{is_blank, number_is_read_from_its_digits, trim_drops_what_is_around};

verus! {

// ─── Declarations ────────────────────────────────────────────────────

/// Whether a text neither begins nor ends with white space.
pub open spec fn is_trim(text: Seq<char>) -> bool {
    text.len() > 0 ==> !white_space(text[0]) && !white_space(text.last())
}

proof fn next_char_is(text: Seq<char>, from: int, c: char, at: int)
    requires
        0 <= from <= at <= text.len(),
        forall|i: int| from <= i < at ==> #[trigger] text[i] != c,
        at < text.len() ==> text[at] == c,
    ensures
        next_char(text, from, c) == at,
    decreases at - from,
{
    if from < at {
        assert(text[from] != c);
        next_char_is(text, from + 1, c, at);
    }
}

/// Whatever white space stands around a property and its value, a declaration is read as
/// the two; a text without a colon declares nothing.
pub proof fn declaration_is_property_and_value(
    css: CssModel,
    property: Seq<char>,
    value: Seq<char>,
    a: Seq<char>,
    b: Seq<char>,
    c: Seq<char>,
    d: Seq<char>,
    reading: spec_fn(Seq<char>) -> Option<i64>,
)
    requires
        is_blank(a),
        is_blank(b),
        is_blank(c),
        is_blank(d),
        property.len() > 0,
        is_trim(property),
        is_trim(value),
        !property.contains(':'),
    ensures
        css_part(css, a + property + b + seq![':'] + c + value + d, reading) == css_declaration(
            css,
            lowered(property),
            value,
            reading,
        ),
        css_part(css, a + property + b, reading) == css,
{
    let text = a + property + b + seq![':'] + c + value + d;
    let none = Seq::<char>::empty();
    let head = property + b;
    assert forall|i: int| 0 <= i < head.len() implies #[trigger] head[i] != ':' by {
        if i < property.len() {
            assert(property[i] == head[i]);
            assert(property.contains(property[i]));
        } else {
            assert(head[i] == b[i - property.len()]);
            assert(white_space(b[i - property.len()]));
        }
    }
    assert(head =~= none + property + b);
    trim_drops_what_is_around(none, property, b);
    let tail = if value.len() > 0 {
        c + value
    } else {
        none
    };
    let core = head + seq![':'] + tail;
    let end = if value.len() > 0 {
        d
    } else {
        c + d
    };
    assert forall|i: int| 0 <= i < end.len() implies white_space(#[trigger] end[i]) by {
        if value.len() == 0 {
            if i < c.len() {
                assert(end[i] == c[i]);
            } else {
                assert(end[i] == d[i - c.len()]);
            }
        }
    }
    assert(core[0] == property[0]);
    if value.len() > 0 {
        assert(core.last() == value.last());
        assert(tail =~= c + value + none);
        trim_drops_what_is_around(c, value, none);
    } else {
        assert(core.last() == ':');
        assert(none =~= none + none + none);
        trim_drops_what_is_around(none, none, none);
        assert(value =~= none);
    }
    assert(text =~= a + core + end);
    trim_drops_what_is_around(a, core, end);
    assert forall|i: int| 0 <= i < head.len() implies #[trigger] core[i] != ':' by {
        assert(core[i] == head[i]);
    }
    assert(core[head.len() as int] == ':');
    next_char_is(core, 0, ':', head.len() as int);
    assert(core.take(head.len() as int) =~= head);
    assert(core.skip(head.len() as int + 1) =~= tail);
    trim_drops_what_is_around(a, property, b);
    assert forall|i: int| 0 <= i < property.len() implies #[trigger] property[i] != ':' by {
        assert(property.contains(property[i]));
    }
    next_char_is(property, 0, ':', property.len() as int);
}

/// A declaration sets the style of its property, by its value, and no other style. One of a
/// property that is not known sets nothing.
pub proof fn declaration_sets_its_style(
    css: CssModel,
    property: Seq<char>,
    value: Seq<char>,
    reading: spec_fn(Seq<char>) -> Option<i64>,
)
    ensures
        ({
            let new = css_declaration(css, property, value, reading);
            let word = lowered(value);
            let is_break = property == "break-before"@ || property == "page-break-before"@;
            let is_back = property == "background-color"@ || property == "background"@;
            &&& property != "line-height"@ ==> new.line_height == css.line_height
            &&& property == "line-height"@ ==> new.line_height == if reading(value) is Some {
                reading(value)
            } else {
                css.line_height
            }
            &&& property != "white-space"@ ==> new.non_breakable_lines == css.non_breakable_lines
            &&& property == "white-space"@ && (value == "pre"@ || value == "nowrap"@ || value
                == "pre-wrap"@) ==> new.non_breakable_lines == Some(true)
            &&& property == "white-space"@ && value != "pre"@ && value != "nowrap"@ && value
                != "pre-wrap"@ ==> new.non_breakable_lines == css.non_breakable_lines
            &&& !is_break ==> new.page_break_before == css.page_break_before
            &&& is_break && (word == "page"@ || word == "always"@ || word == "left"@ || word
                == "right"@ || word == "recto"@ || word == "verso"@) ==> new.page_break_before
                == Some(true)
            &&& is_break && (word == "avoid"@ || word == "auto"@) ==> new.page_break_before
                == Some(false)
            &&& is_break && new.page_break_before == Some(true) ==> (word == "page"@ || word
                == "always"@ || word == "left"@ || word == "right"@ || word == "recto"@ || word
                == "verso"@)
            &&& is_break && new.page_break_before == Some(false) ==> (word == "avoid"@ || word
                == "auto"@)
            &&& property != "direction"@ ==> new.direction == css.direction
            &&& property == "direction"@ && word == "rtl"@ ==> new.direction == Some(
                TextDirection::RightToLeft,
            )
            &&& property == "direction"@ && word == "ltr"@ ==> new.direction == Some(
                TextDirection::LeftToRight,
            )
            &&& property == "direction"@ && word != "rtl"@ && word != "ltr"@ ==> new.direction
                == css.direction
            &&& !is_back ==> new.background_color == css.background_color
            &&& is_back ==> new.background_color == Some(value)
        }),
{
    reveal_strlit("line-height");
    reveal_strlit("white-space");
    reveal_strlit("break-before");
    reveal_strlit("page-break-before");
    reveal_strlit("direction");
    reveal_strlit("background-color");
    reveal_strlit("background");
    reveal_strlit("page");
    reveal_strlit("always");
    reveal_strlit("left");
    reveal_strlit("right");
    reveal_strlit("recto");
    reveal_strlit("verso");
    reveal_strlit("avoid");
    reveal_strlit("auto");
    reveal_strlit("rtl");
    reveal_strlit("ltr");
    let n = property.len();
    assert(property == "line-height"@ ==> n == 11 && property[0] == 'l');
    assert(property == "white-space"@ ==> n == 11 && property[0] == 'w');
    assert(property == "break-before"@ ==> n == 12);
    assert(property == "page-break-before"@ ==> n == 17);
    assert(property == "direction"@ ==> n == 9);
    assert(property == "background-color"@ ==> n == 16);
    assert(property == "background"@ ==> n == 10);
    let word = lowered(value);
    let m = word.len();
    assert(word == "page"@ ==> m == 4 && word[0] == 'p');
    assert(word == "always"@ ==> m == 6);
    assert(word == "left"@ ==> m == 4 && word[0] == 'l');
    assert(word == "right"@ ==> m == 5 && word[0] == 'r');
    assert(word == "recto"@ ==> m == 5 && word[0] == 'r');
    assert(word == "verso"@ ==> m == 5 && word[0] == 'v');
    assert(word == "avoid"@ ==> m == 5 && word[0] == 'a');
    assert(word == "auto"@ ==> m == 4 && word[0] == 'a');
    assert(word == "rtl"@ ==> m == 3 && word[0] == 'r');
    assert(word == "ltr"@ ==> m == 3 && word[0] == 'l');
}

proof fn next_char_is_relative(text: Seq<char>, before: Seq<char>, from: int, c: char)
    requires
        0 <= from,
    ensures
        next_char(before + text, from + before.len(), c) == next_char(text, from, c)
            + before.len(),
        from <= text.len() ==> from <= next_char(text, from, c) <= text.len(),
    decreases text.len() - from,
{
    if from < text.len() {
        assert((before + text)[from + before.len()] == text[from]);
        next_char_is_relative(text, before, from + 1, c);
    }
}

proof fn declarations_are_relative(
    text: Seq<char>,
    before: Seq<char>,
    from: int,
    css: CssModel,
    reading: spec_fn(Seq<char>) -> Option<i64>,
)
    requires
        0 <= from <= text.len(),
    ensures
        css_from(before + text, from + before.len(), css, reading) == css_from(
            text,
            from,
            css,
            reading,
        ),
    decreases text.len() - from,
{
    let end = next_char(text, from, ';');
    let far = before.len() as int;
    next_char_is_relative(text, before, from, ';');
    if end < text.len() {
        assert((before + text).subrange(from + far, end + far) =~= text.subrange(from, end));
        declarations_are_relative(
            text,
            before,
            end + 1,
            css_part(css, text.subrange(from, end), reading),
            reading,
        );
    } else {
        assert((before + text).skip(from + far) =~= text.skip(from));
    }
}

/// The declarations of a style are read one after the other, what is declared later over
/// what is declared before; a style without any says nothing.
pub proof fn declarations_are_read_in_turn(
    first: Seq<char>,
    rest: Seq<char>,
    css: CssModel,
    reading: spec_fn(Seq<char>) -> Option<i64>,
)
    requires
        !first.contains(';'),
    ensures
        css_from(first + seq![';'] + rest, 0, css, reading) == css_from(
            rest,
            0,
            css_part(css, first, reading),
            reading,
        ),
        css_from(first, 0, css, reading) == css_part(css, first, reading),
        css_of(first, reading) == css_part(no_css(), first, reading),
        ({
            let none = css_of(Seq::empty(), reading);
            &&& none.line_height is None
            &&& none.non_breakable_lines is None
            &&& none.page_break_before is None
            &&& none.direction is None
            &&& none.background_color is None
        }),
{
    let before = first + seq![';'];
    let text = before + rest;
    let at = first.len() as int;
    assert forall|i: int| 0 <= i < at implies #[trigger] first[i] != ';' by {
        assert(first.contains(first[i]));
    }
    assert forall|i: int| 0 <= i < at implies #[trigger] text[i] != ';' by {
        assert(text[i] == first[i]);
    }
    assert(text[at] == ';');
    next_char_is(text, 0, ';', at);
    next_char_is(first, 0, ';', at);
    assert(text.subrange(0, at) =~= first);
    assert(first.skip(0) =~= first);
    declarations_are_relative(rest, before, 0, css_part(css, first, reading), reading);
    let none = Seq::<char>::empty();
    assert(none.skip(0) =~= none);
    assert(none =~= none + none + none);
    trim_drops_what_is_around(none, none, none);
    assert(css_of(none, reading) == css_part(no_css(), none, reading));
}

// ─── Sizes ───────────────────────────────────────────────────────────

/// A size is read from its digits, with or without the unit behind them and whatever white
/// space stands around; one that is not positive, or not there, is zero.
pub proof fn sizes_are_read(before: Seq<char>, n: i64, behind: Seq<char>)
    requires
        is_blank(before),
        is_blank(behind),
    ensures
        ({
            let digits = signed_digits(n as int);
            let plain = html_pixels(Some(before + digits + behind));
            let with_unit = html_pixels(Some(before + (digits + seq!['p', 'x']) + behind));
            &&& n > 0 ==> plain == n && with_unit == n
            &&& n <= 0 ==> plain == 0 && with_unit == 0
        }),
        html_pixels(None) == 0,
{
    let text = signed_digits(n as int);
    let size: nat = if n < 0 {
        (-n) as nat
    } else {
        n as nat
    };
    let digits = digits_of(size);
    digits_spell_the_number(size);
    assert(digit(digits[0]));
    assert(digit(digits.last()));
    assert(text.last() == digits.last());
    number_is_read_from_its_digits(n);
    trim_drops_what_is_around(before, text, behind);
    assert(without_px(text) == text);
    let sized = text + seq!['p', 'x'];
    assert(sized.last() == 'x');
    assert(sized[0] == text[0]);
    trim_drops_what_is_around(before, sized, behind);
    assert(sized.take(sized.len() - 2) =~= text);
    assert(without_px(sized) == text);
}

/// What spells no number is a size of zero.
pub proof fn no_number_is_no_size(text: Seq<char>)
    requires
        number(without_px(trim(text))) is None,
    ensures
        html_pixels(Some(text)) == 0,
{
}

// ─── Languages ───────────────────────────────────────────────────────

/// The language that classes name is what stands behind `language-` in the first of them
/// that begins so.
pub proof fn first_language_counts(classes: Seq<Seq<char>>, from: int, at: int, name: Seq<char>)
    requires
        0 <= from <= at <= classes.len(),
        forall|i: int, rest: Seq<char>|
            from <= i < at ==> #[trigger] classes[i] != #[trigger] ("language-"@ + rest),
        at < classes.len() ==> classes[at] == "language-"@ + name,
    ensures
        at < classes.len() ==> language_word(classes, from) == Some(name),
        at == classes.len() ==> language_word(classes, from) is None,
    decreases at - from,
{
    let head = "language-"@;
    if from < at {
        let class = classes[from];
        if begins_with(class, head) {
            let rest = class.skip(head.len() as int);
            assert(class =~= head + rest);
            assert(classes[from] != head + rest);
        }
        first_language_counts(classes, from + 1, at, name);
    } else if at < classes.len() {
        assert(classes[at].take(head.len() as int) =~= head);
        assert(classes[at].skip(head.len() as int) =~= name);
    }
}

} // verus!
