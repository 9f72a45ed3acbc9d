//! Why the Djot of a plain text can always be read back: where its lines are prose, the
//! parser finds no heading in it, and does not descend.
use vstd::prelude::*;

use crate::chars::digit;
use crate::parser_tools::depth_laws::{line_end_behind, one_line};
use crate::parser_tools::djot::{heading_level, headings_in, parser_bears, Headings};
use crate::parser_tools::djot_depth::line_end;
use crate::parser_tools::djot_descent::{
    begun, code_fence, descent, digits_from, divs_behind, is_item_at, reach, source_lines,
};
use crate::parser_tools::djot_escape::{
    lines_are_filled, marked, marked_lines, nonempty_lines, paragraphs_are_spelled, spelled_bare,
    spelled_concat, spelled_one, survives, text_as_djot,
};
use crate::parser_tools::djot_line::{
    front_from, front_of, is_number, number_len, opener_len, run_end, white_end, word_end, Front,
};
use crate::parser_tools::djot_plain::{
    ascii_white, bare_white, core_of, numbered, numbers, padded_line, plain_line, plain_lines,
    roman_lower, roman_upper, spelled, spelled_paragraphs, stands, without_end, without_start,
    MarkedLine,
};

verus! {

// ─── One line ────────────────────────────────────────────────────────

/// Whether a text is white space.
spec fn all_white(text: Seq<char>) -> bool {
    forall|i: int| 0 <= i < text.len() ==> ascii_white(#[trigger] text[i])
}

/// What stands before and behind a line's core is written as it is.
proof fn spelled_start(line: MarkedLine) -> (white: Seq<char>)
    ensures
        all_white(white),
        spelled(line) == white + spelled(without_start(line)),
    decreases line.len(),
{
    if line.len() > 0 && bare_white(line[0]) {
        let rest = line.skip(1);
        let white = spelled_start(rest);
        assert(line =~= seq![line[0]] + rest);
        spelled_concat(seq![line[0]], rest);
        spelled_one(line[0]);
        let all = seq![line[0].0] + white;
        assert(all + spelled(without_start(line)) =~= spelled(line));
        assert forall|i: int| 0 <= i < all.len() implies ascii_white(#[trigger] all[i]) by {
            if i > 0 {
                assert(all[i] == white[i - 1]);
            }
        }
        all
    } else {
        let white = Seq::<char>::empty();
        assert(white + spelled(line) =~= spelled(line));
        white
    }
}

proof fn spelled_end(line: MarkedLine) -> (white: Seq<char>)
    ensures
        all_white(white),
        spelled(line) == spelled(without_end(line)) + white,
    decreases line.len(),
{
    if line.len() > 0 && bare_white(line.last()) {
        let white = spelled_end(line.drop_last());
        let all = white.push(line.last().0);
        assert(spelled(without_end(line)) + all =~= spelled(line));
        all
    } else {
        let white = Seq::<char>::empty();
        assert(spelled(line) + white =~= spelled(line));
        white
    }
}

/// What a core is written as begins with, up to the first backslash: its characters.
proof fn spelled_prefix(line: MarkedLine, m: int)
    requires
        0 <= m <= spelled(line).len(),
        forall|k: int| 0 <= k < m ==> #[trigger] spelled(line)[k] != '\\',
    ensures
        m <= line.len(),
        forall|k: int| 0 <= k < m ==> !(#[trigger] line[k]).1 && line[k].0 == spelled(line)[k],
        m < spelled(line).len() ==> m < line.len() && spelled(line)[m] == if line[m].1 {
            '\\'
        } else {
            line[m].0
        },
        m == spelled(line).len() ==> m == line.len(),
    decreases m,
{
    if m > 0 {
        spelled_prefix(line, m - 1);
        assert(spelled(line)[m - 1] != '\\');
    }
    let head = line.take(m);
    let tail = line.skip(m);
    assert(line =~= head + tail);
    spelled_concat(head, tail);
    spelled_bare(head);
    if tail.len() > 0 {
        let rest = tail.skip(1);
        assert(tail =~= seq![tail[0]] + rest);
        spelled_concat(seq![tail[0]], rest);
        spelled_one(tail[0]);
        assert(tail[0] == line[m]);
    } else {
        assert(tail =~= Seq::empty());
        assert(spelled(tail).len() == 0);
    }
}

proof fn front_behind_white(text: Seq<char>, a: int, i: int, f: Front)
    requires
        0 <= i <= a <= text.len(),
        forall|k: int| 0 <= k < a ==> ascii_white(#[trigger] text[k]),
        a < text.len() ==> !ascii_white(text[a]) && opener_len(text, a) == 0,
        f.openers == f.quotes,
    ensures
        front_from(text, i, f) == (Front { white: f.white + a - i, end: a, ..f }),
        white_end(text, i) == a,
    decreases a - i,
{
    if i < a {
        front_behind_white(text, a, i + 1, Front { white: f.white + 1, ..f });
    }
}

proof fn digits_are_a_word(text: Seq<char>, i: int)
    requires
        0 <= i <= text.len(),
        digits_from(text, i) < text.len(),
        text[digits_from(text, i)] == '.' || text[digits_from(text, i)] == ')',
    ensures
        word_end(text, i) == digits_from(text, i),
        forall|k: int| i <= k < digits_from(text, i) ==> digit(#[trigger] text[k]),
    decreases text.len() - i,
{
    if i < text.len() && digit(text[i]) {
        digits_are_a_word(text, i + 1);
    }
}

proof fn word_is_letters_and_digits(text: Seq<char>, i: int)
    requires
        0 <= i <= text.len(),
    ensures
        i <= word_end(text, i) <= text.len(),
        forall|k: int| i <= k < word_end(text, i) ==> #[trigger] text[k] != '\\',
    decreases text.len() - i,
{
    if i < text.len() {
        word_is_letters_and_digits(text, i + 1);
    }
}

/// Prose does not begin with the number of a list item.
proof fn no_number(white: Seq<char>, line: MarkedLine, padding: Seq<char>)
    requires
        plain_line(line),
        all_white(padding),
    ensures
        number_len(white + spelled(line) + padding, white.len() as int) == 0,
{
    let text = white + spelled(line) + padding;
    let a = white.len() as int;
    spelled_prefix(line, 0);
    assert(spelled(line).len() > 0) by {
        if spelled(line).len() == 0 {
            assert(line.len() == 0);
        }
    }
    assert(text[a] == spelled(line)[0]);
    assert(stands(line, 0));
    assert(text[a] != '(');
    if number_len(text, a) > 0 {
        let end = word_end(text, a);
        let e = end - a;
        word_is_letters_and_digits(text, a);
        if e >= spelled(line).len() {
            // The delimiter would be in the padding.
            assert(text[end] == padding[e - spelled(line).len()]);
        } else {
            assert forall|k: int| 0 <= k < e implies #[trigger] spelled(line)[k] != '\\' by {
                assert(text[a + k] == spelled(line)[k]);
            }
            spelled_prefix(line, e);
            assert(text[end] == spelled(line)[e]);
            assert(stands(line, e));
            assert(line[e] == ('.', false));
            assert forall|k: int| 0 <= k <= e implies #[trigger] spelled(line)[k] != '\\' by {
                if k < e {
                    assert(text[a + k] == spelled(line)[k]);
                }
            }
            spelled_prefix(line, e + 1);
            if e + 1 < line.len() {
                assert(e + 1 < spelled(line).len());
                assert(text[end + 1] == spelled(line)[e + 1]);
            }
            assert forall|k: int| 0 <= k < e implies (#[trigger] line[k]).0 == text[a + k] by {}
            assert(numbers(line, e)) by {
                assert(is_number(text, a, end));
                if e <= 19 && (forall|k: int| a <= k < end ==> digit(#[trigger] text[k])) {
                    assert forall|k: int| 0 <= k < e implies digit((#[trigger] line[k]).0) by {
                        assert(digit(text[a + k]));
                    }
                } else if e <= 13 && (forall|k: int|
                    a <= k < end ==> roman_lower(#[trigger] text[k])) {
                    assert forall|k: int| 0 <= k < e implies roman_lower(
                        (#[trigger] line[k]).0,
                    ) by {
                        assert(roman_lower(text[a + k]));
                    }
                } else if e <= 13 && (forall|k: int|
                    a <= k < end ==> roman_upper(#[trigger] text[k])) {
                    assert forall|k: int| 0 <= k < e implies roman_upper(
                        (#[trigger] line[k]).0,
                    ) by {
                        assert(roman_upper(text[a + k]));
                    }
                } else {
                    assert(line[0].0 == text[a]);
                }
            }
            assert(numbered(line, e));
        }
    }
}

/// What a line of prose is to the parser: it opens no container, is no heading and no
/// fence, and where it begins a block, that is a paragraph.
proof fn prose_opens_nothing(line: MarkedLine, bare: bool)
    requires
        padded_line(line),
    ensures
        ({
            let text = spelled(line);
            let f = front_of(text);
            &&& f.openers == 0 && f.quotes == 0
            &&& white_end(text, 0) == f.end
            &&& heading_level(text) == 0
            &&& f.end < text.len() ==> run_end(text, f.end, ':') == f.end && code_fence(
                text,
                f.end,
            ) is None && begun(text, bare) is Prose
            &&& f.end >= text.len() ==> f.end == text.len() && code_fence(text, f.end) is None
        }),
{
    let text = spelled(line);
    let white = spelled_start(line);
    let padding = spelled_end(without_start(line));
    let core = core_of(line);
    let a = white.len() as int;
    let start = Front { openers: 0, quotes: 0, white: 0, inset: 0, end: 0 };
    assert(text =~= white + spelled(core) + padding);
    if core.len() == 0 {
        assert(spelled(core) =~= Seq::<char>::empty());
        assert forall|k: int| 0 <= k < text.len() implies ascii_white(#[trigger] text[k]) by {
            if k < a {
                assert(text[k] == white[k]);
            } else {
                assert(text[k] == padding[k - a]);
            }
        }
        front_behind_white(text, text.len() as int, 0, start);
    } else {
        spelled_prefix(core, 0);
        assert(spelled(core).len() > 0) by {
            if spelled(core).len() == 0 {
                assert(core.len() == 0);
            }
        }
        assert(text[a] == spelled(core)[0]);
        assert(stands(core, 0));
        no_number(white, core, padding);
        assert(opener_len(text, a) == 0);
        assert forall|k: int| 0 <= k < a implies ascii_white(#[trigger] text[k]) by {
            assert(text[k] == white[k]);
        }
        front_behind_white(text, a, 0, start);
        assert(run_end(text, a, '`') == a && run_end(text, a, '~') == a);
        assert(run_end(text, a, '#') == a);
        if is_item_at(text, a) {
            digits_are_a_word(text, a);
            assert(is_number(text, a, word_end(text, a)));
            assert(number_len(text, a) > 0);
        }
    }
}

// ─── The lines of a text ─────────────────────────────────────────────

proof fn lines_behind(head: Seq<char>, text: Seq<char>, i: int)
    requires
        0 <= i <= text.len(),
    ensures
        source_lines(head + text, head.len() + i) == source_lines(text, i),
    decreases text.len() - i,
{
    if i < text.len() {
        line_end_behind(head, text, i);
        let end = line_end(text, i);
        let all = head + text;
        assert(all.subrange(head.len() + i, head.len() + end) =~= text.subrange(i, end));
        if end < text.len() {
            lines_behind(head, text, end + 1);
        }
    }
}

proof fn line_end_before(text: Seq<char>, more: Seq<char>, i: int)
    requires
        0 <= i < text.len(),
        text.last() == '\n',
    ensures
        line_end(text + more, i) == line_end(text, i),
        i <= line_end(text, i) < text.len(),
    decreases text.len() - i,
{
    if text[i] != '\n' {
        assert(text.last() == text[text.len() - 1]);
        line_end_before(text, more, i + 1);
    }
}

/// Where a line has ended, the lines of what follows follow.
proof fn lines_follow(text: Seq<char>, more: Seq<char>, i: int)
    requires
        0 <= i <= text.len(),
        text.len() > 0,
        text.last() == '\n',
    ensures
        source_lines(text + more, i) == source_lines(text, i) + source_lines(more, 0),
    decreases text.len() - i,
{
    let all = text + more;
    if i == text.len() {
        lines_behind(text, more, 0);
        assert(source_lines(text, i) + source_lines(more, 0) =~= source_lines(more, 0));
    } else {
        line_end_before(text, more, i);
        let end = line_end(text, i);
        lines_follow(text, more, end + 1);
        assert(all.subrange(i, end) =~= text.subrange(i, end));
        assert(source_lines(all, i) =~= source_lines(text, i) + source_lines(more, 0));
    }
}

proof fn line_end_bounds(text: Seq<char>, i: int)
    requires
        0 <= i <= text.len(),
    ensures
        i <= line_end(text, i) <= text.len(),
        line_end(text, i) < text.len() ==> text[line_end(text, i)] == '\n',
    decreases text.len() - i,
{
    if i < text.len() && text[i] != '\n' {
        line_end_bounds(text, i + 1);
    }
}

proof fn line_end_closed(text: Seq<char>, i: int)
    requires
        0 <= i <= text.len(),
    ensures
        line_end(text.push('\n'), i) == line_end(text, i),
    decreases text.len() - i,
{
    if i < text.len() && text[i] != '\n' {
        line_end_closed(text, i + 1);
    }
}

/// The newline at the end of the last line adds no line.
proof fn lines_closed(text: Seq<char>, i: int)
    requires
        0 <= i < text.len(),
        text.last() != '\n',
    ensures
        source_lines(text.push('\n'), i) == source_lines(text, i),
    decreases text.len() - i,
{
    let all = text.push('\n');
    line_end_closed(text, i);
    line_end_bounds(text, i);
    let end = line_end(text, i);
    assert(all.subrange(i, end) =~= text.subrange(i, end));
    if end < text.len() {
        assert(end != text.len() - 1);
        lines_closed(text, end + 1);
    } else {
        assert(source_lines(all, end + 1) =~= Seq::empty());
        assert(source_lines(all, i) =~= source_lines(text, i));
    }
}

/// A line in which no newline stands is written without one.
proof fn spelled_without_newline(line: MarkedLine)
    requires
        forall|i: int| 0 <= i < line.len() ==> (#[trigger] line[i]).0 != '\n',
    ensures
        forall|i: int| 0 <= i < spelled(line).len() ==> #[trigger] spelled(line)[i] != '\n',
        spelled(line).len() >= line.len(),
    decreases line.len(),
{
    if line.len() > 0 {
        let rest = line.drop_last();
        assert forall|i: int| 0 <= i < rest.len() implies (#[trigger] rest[i]).0 != '\n' by {
            assert(rest[i] == line[i]);
        }
        spelled_without_newline(rest);
        assert(line.last() == line[line.len() - 1]);
    }
}

/// The parser does not descend into prose, and finds no heading in it.
proof fn prose_is_flat(lines: Seq<MarkedLine>)
    requires
        plain_lines(lines),
        forall|i: int| 0 <= i < lines.len() ==> (#[trigger] lines[i]).len() > 0,
        lines.len() > 0,
    ensures
        ({
            let text = spelled_paragraphs(lines);
            let d = descent(source_lines(text, 0));
            &&& text.len() > 0 && text.last() != '\n'
            &&& d.divs.len() == 0 && d.deepest == 0 && d.longest <= 1
            &&& d.mode is Prose || d.mode is Fresh
            &&& headings_in(source_lines(text, 0)) == (Headings { highest: 0, count: 0 })
        }),
    decreases lines.len(),
{
    let text = spelled_paragraphs(lines);
    let last = spelled(lines.last());
    assert(lines.last() == lines[lines.len() - 1]);
    assert(padded_line(lines.last()));
    spelled_without_newline(lines.last());
    one_line(last, 0);
    assert(last.subrange(0, last.len() as int) =~= last);
    assert(source_lines(last, 0) =~= seq![last]);
    if lines.len() == 1 {
        let before = Seq::<Seq<char>>::empty();
        assert(seq![last].drop_last() =~= before);
        flat_line(before, lines.last());
        assert(before.push(last) =~= seq![last]);
    } else {
        reveal_strlit("\n\n");
        let rest = lines.drop_last();
        assert forall|i: int| 0 <= i < rest.len() implies padded_line(#[trigger] rest[i])
            && rest[i].len() > 0 by {
            assert(rest[i] == lines[i]);
        }
        prose_is_flat(rest);
        let head = spelled_paragraphs(rest);
        let closed = head.push('\n');
        let blank = seq!['\n'];
        let spaced = closed + blank;
        assert(spaced + last =~= text);
        lines_closed(head, 0);
        lines_follow(closed, blank, 0);
        lines_follow(spaced, last, 0);
        let before = source_lines(head, 0);
        let empty = Seq::<char>::empty();
        assert(source_lines(blank, 0) =~= seq![empty]) by {
            assert(blank.subrange(0, 0) =~= empty);
            assert(source_lines(blank, 1) =~= Seq::empty());
            assert(line_end(blank, 0) == 0);
        }
        assert(before + seq![empty] =~= before.push(empty));
        assert(spelled(Seq::<(char, bool)>::empty()) =~= empty);
        flat_line(before, Seq::empty());
        assert(before.push(empty) + seq![last] =~= before.push(empty).push(last));
        flat_line(before.push(empty), lines.last());
    }
}

proof fn flat_line(before: Seq<Seq<char>>, line: MarkedLine)
    requires
        padded_line(line),
        descent(before).divs.len() == 0,
        descent(before).deepest == 0,
        descent(before).longest <= 1,
        descent(before).mode is Fresh || (descent(before).mode is Prose && line.len() == 0),
        headings_in(before) == (Headings { highest: 0, count: 0 }),
    ensures
        ({
            let d = descent(before.push(spelled(line)));
            &&& d.divs.len() == 0 && d.deepest == 0 && d.longest <= 1
            &&& d.mode is Prose || d.mode is Fresh
            &&& line.len() == 0 ==> d.mode is Fresh
            &&& headings_in(before.push(spelled(line))) == (Headings { highest: 0, count: 0 })
        }),
{
    let text = spelled(line);
    let all = before.push(text);
    assert(all.drop_last() =~= before);
    let d = descent(before);
    prose_opens_nothing(line, d.divs.len() == 0 && !d.loose);
    assert(d.divs =~= Seq::empty());
    assert(divs_behind(d.divs, text) =~= Seq::empty());
    assert(reach(d.divs, text) == 0);
    if line.len() == 0 {
        assert(text.len() == 0);
    }
}

/// A plain text whose lines are prose has no heading in its Djot that the parser could
/// not count, and the parser does not descend into it: it bears every such text.
pub proof fn surviving_text_can_be_read(text: Seq<char>)
    requires
        survives(text),
    ensures
        parser_bears(text_as_djot(text)),
{
    let lines = nonempty_lines(text, 0);
    let all = marked_lines(lines);
    paragraphs_are_spelled(lines);
    lines_are_filled(text, 0);
    if lines.len() == 0 {
        assert(text_as_djot(text) =~= Seq::<char>::empty());
        assert(source_lines(Seq::<char>::empty(), 0) =~= Seq::empty());
    } else {
        assert forall|i: int| 0 <= i < all.len() implies (#[trigger] all[i]).len() > 0 by {
            assert(all[i] == marked(lines[i]));
            assert(lines[i].len() > 0);
        }
        prose_is_flat(all);
    }
}

} // verus!
