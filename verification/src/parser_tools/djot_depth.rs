//! A ceiling on how deeply nested a Djot document may be before it is parsed.
//!
//! The parser descends once per nested block container and has no depth limit of
//! its own, and a stack overflow aborts the process. So over-deep input has to be
//! refused before the parser is handed the text at all. What this module does is
//! bound the *input*: it counts the markers that may open a container.
//!
//! It deliberately over-estimates: a `>` inside a code fence is prose.
//! Over-counting is the safe direction.
//!
//! [`parse_djot`](super::djot::parse_djot) **degrades rather than refusing**:
//! over-deep input comes back as a single plain paragraph holding the source
//! verbatim. Nothing is lost: the text is all still there, it is simply not given
//! a structure.
use vstd::prelude::*;

use crate::chars::{is_white_space, trim, trim_start, trimmed};
use crate::text::{byte_len, byte_len_push, char_bytes, prefix_within, to_chars};

verus! {

/// The most nested block containers a document may declare before
/// [`is_too_deep`] reports it.
pub const MAX_NESTING_DEPTH: usize = 96;

/// The position of the first newline of a text from `from` on, or its end.
pub open spec fn line_end(text: Seq<char>, from: int) -> int
    decreases text.len() - from,
{
    if from < 0 || from >= text.len() {
        text.len() as int
    } else if text[from] == '\n' {
        from
    } else {
        line_end(text, from + 1)
    }
}

/// The line that begins at `from`: what stands before the next newline, without
/// a carriage return right before that newline; or the rest of the text.
pub open spec fn line_at(text: Seq<char>, from: int) -> Seq<char> {
    let end = line_end(text, from);
    if end < text.len() && end > from && text[end - 1] == '\r' {
        text.subrange(from, end - 1)
    } else {
        text.subrange(from, end)
    }
}

/// Whether a text is made of colons alone.
pub open spec fn all_colons(text: Seq<char>) -> bool {
    forall|i: int| 0 <= i < text.len() ==> #[trigger] text[i] == ':'
}

/// The number of blockquote markers that a line, from `i` on, opens with.
pub open spec fn quote_markers(line: Seq<char>, i: int) -> int
    decreases line.len() - i,
{
    if i < 0 || i >= line.len() {
        0
    } else if line[i] == '>' {
        1 + quote_markers(line, i + 1)
    } else if line[i] == ' ' || line[i] == '\t' {
        quote_markers(line, i + 1)
    } else {
        0
    }
}

/// The div fences that are open, and the deepest nesting met so far.
#[verifier::ext_equal]
pub struct Depth {
    pub open_divs: int,
    pub deepest: int,
}

/// The larger of two numbers.
pub open spec fn larger(a: int, b: int) -> int {
    if a >= b {
        a
    } else {
        b
    }
}

/// The depth after one more line. A line of colons alone closes a div, other
/// text behind `:::` opens one; any other line nests by its blockquote markers,
/// by the open divs, and by one level per two bytes of indentation.
pub open spec fn depth_line(d: Depth, line: Seq<char>) -> Depth {
    let body = trim_start(line);
    if body.len() >= 3 && body[0] == ':' && body[1] == ':' && body[2] == ':' {
        if all_colons(trim(body.skip(3))) {
            Depth {
                open_divs: if d.open_divs > 0 {
                    d.open_divs - 1
                } else {
                    0
                },
                ..d
            }
        } else {
            Depth {
                open_divs: d.open_divs + 1,
                deepest: larger(d.deepest, d.open_divs + 1),
            }
        }
    } else {
        let indent = byte_len(line) - byte_len(body);
        Depth {
            deepest: larger(d.deepest, quote_markers(body, 0) + d.open_divs + indent / 2),
            ..d
        }
    }
}

/// The depth after the lines of a text from `from` on.
pub open spec fn depth_from(text: Seq<char>, from: int, d: Depth) -> Depth
    decreases text.len() - from,
{
    if from < 0 || from >= text.len() {
        d
    } else {
        let end = line_end(text, from);
        if from <= end < text.len() {
            depth_from(text, end + 1, depth_line(d, line_at(text, from)))
        } else {
            depth_line(d, line_at(text, from))
        }
    }
}

/// How deep the blocks of a text may nest, by the markers it holds.
pub open spec fn depth_of(text: Seq<char>) -> int {
    depth_from(text, 0, Depth { open_divs: 0, deepest: 0 }).deepest
}

/// Whether a text nests deeply enough to risk exhausting the stack.
pub open spec fn too_deep(text: Seq<char>) -> bool {
    depth_of(text) > MAX_NESTING_DEPTH
}

/// The end of the line that begins at `from`.
pub(crate) fn find_line_end(text: &Vec<char>, from: usize) -> (end: usize)
    requires
        from <= text@.len(),
    ensures
        end == line_end(text@, from as int),
        from <= end <= text@.len(),
{
    let mut end: usize = from;
    while end < text.len() && text[end] != '\n'
        invariant
            from <= end <= text@.len(),
            line_end(text@, from as int) == line_end(text@, end as int),
        decreases text@.len() - end,
    {
        end += 1;
    }
    end
}

/// The number of blockquote markers that a line, from `start` on, opens with.
fn count_quotes(line: &Vec<char>, start: usize) -> (quotes: usize)
    requires
        start <= line@.len(),
    ensures
        quotes == quote_markers(line@, start as int),
        quotes <= line@.len() - start,
{
    let mut quotes: usize = 0;
    let mut i: usize = start;
    while i < line.len() && (line[i] == '>' || line[i] == ' ' || line[i] == '\t')
        invariant
            start <= i <= line@.len(),
            quotes <= i - start,
            quote_markers(line@, start as int) == quotes + quote_markers(line@, i as int),
        decreases line@.len() - i,
    {
        if line[i] == '>' {
            quotes += 1;
        }
        i += 1;
    }
    quotes
}

/// Whether characters are all colons.
fn is_all_colons(chars: &Vec<char>) -> (all: bool)
    ensures
        all == all_colons(chars@),
{
    for i in 0..chars.len()
        invariant
            forall|j: int| 0 <= j < i ==> #[trigger] chars@[j] == ':',
    {
        if chars[i] != ':' {
            return false;
        }
    }
    true
}

/// How many characters of white space a line begins with, and how many bytes
/// they take. The line holds no more bytes than a size can count.
fn indentation(line: &Vec<char>) -> (indent: (usize, usize))
    requires
        byte_len(line@) <= usize::MAX,
    ensures
        indent.0 <= line@.len(),
        line@.skip(indent.0 as int) == trim_start(line@),
        indent.1 == byte_len(line@) - byte_len(trim_start(line@)),
        indent.1 <= byte_len(line@),
{
    let ghost text = line@;
    let mut start: usize = 0;
    let mut bytes: usize = 0;
    assert(text.skip(0) =~= text);
    assert(text.take(0) =~= Seq::<char>::empty());
    while start < line.len() && is_white_space(line[start])
        invariant
            text == line@,
            start <= text.len(),
            byte_len(text) <= usize::MAX,
            trim_start(text) == trim_start(text.skip(start as int)),
            bytes == byte_len(text.take(start as int)),
        decreases text.len() - start,
    {
        proof {
            assert(text.skip(start as int).skip(1) =~= text.skip(start + 1));
            byte_len_push(text.take(start as int), text[start as int]);
            assert(text.take(start + 1) =~= text.take(start as int).push(text[start as int]));
            prefix_within(text, start + 1);
        }
        bytes = bytes + char_bytes(line[start]);
        start += 1;
    }
    proof {
        crate::text::encode_utf8_concat(text.take(start as int), text.skip(start as int));
        assert(text =~= text.take(start as int) + text.skip(start as int));
    }
    (start, bytes)
}

/// The div fences that are open after one more line, and the deepest nesting
/// met so far.
fn read_line(line: &Vec<char>, open_divs: usize, deepest: usize) -> (depth: (usize, usize))
    requires
        open_divs + byte_len(line@) <= usize::MAX,
    ensures
        depth_line(
            (Depth { open_divs: open_divs as int, deepest: deepest as int }),
            line@,
        ) == (Depth { open_divs: depth.0 as int, deepest: depth.1 as int }),
        depth.0 <= open_divs + byte_len(line@),
        depth.1 <= deepest || depth.1 <= open_divs + byte_len(line@),
{
    let indent = indentation(line);
    let start: usize = indent.0;
    let ghost body = trim_start(line@);
    proof {
        crate::text::chars_within_bytes(line@);
        crate::text::chars_within_bytes(body);
    }
    if line.len() - start >= 3 && line[start] == ':' && line[start + 1] == ':' && line[start + 2]
        == ':' {
        // A **closing** fence is colons and nothing else. Djot lets an outer
        // fence be longer than three so a div can nest inside another.
        let rest = crate::chars::part(line.as_slice(), start + 3, line.len());
        assert(rest@ =~= body.skip(3));
        let rest = trimmed(rest.as_slice());
        if is_all_colons(&rest) {
            if open_divs > 0 {
                (open_divs - 1, deepest)
            } else {
                (0, deepest)
            }
        } else if deepest < open_divs + 1 {
            (open_divs + 1, open_divs + 1)
        } else {
            (open_divs + 1, deepest)
        }
    } else {
        let rest = crate::chars::part(line.as_slice(), start, line.len());
        assert(rest@ =~= body);
        let quotes: usize = count_quotes(&rest, 0);
        let depth: usize = quotes + open_divs + indent.1 / 2;
        if deepest < depth {
            (open_divs, depth)
        } else {
            (open_divs, deepest)
        }
    }
}

/// How deep the blocks of `text` may nest, by the markers it holds.
///
/// Counts, per line: the run of blockquote markers opening it, the number of
/// `:::` div fences currently open, and one level per two bytes of leading
/// indentation (the coarsest list-nesting unit Djot admits). What list items and
/// footnotes opened on one line, or divs that a line of colons does not close, add to
/// the parser's descent is not counted here:
/// [`goes_too_far`](super::djot_descent::goes_too_far) tells whether it bears that.
pub fn nesting_depth(text: &str) -> (depth: usize)
    ensures
        depth == depth_of(text@),
{
    let whole = to_chars(text);
    let size: usize = text.as_bytes().len();
    let ghost all = text@;
    let mut from: usize = 0;
    let mut open_divs: usize = 0;
    let mut deepest: usize = 0;
    assert(all.take(0) =~= Seq::<char>::empty());
    while from < whole.len()
        invariant
            whole@ == all,
            size == byte_len(all),
            from <= all.len(),
            open_divs <= byte_len(all.take(from as int)),
            depth_of(all) == depth_from(
                all,
                from as int,
                (Depth { open_divs: open_divs as int, deepest: deepest as int }),
            ).deepest,
        decreases all.len() - from,
    {
        let end: usize = find_line_end(&whole, from);
        let stop: usize = if end < whole.len() && end > from && whole[end - 1] == '\r' {
            end - 1
        } else {
            end
        };
        let next: usize = if end < whole.len() {
            end + 1
        } else {
            end
        };
        let line = crate::chars::part(whole.as_slice(), from, stop);
        proof {
            line_bytes(all, from as int, stop as int, next as int);
        }
        let depth = read_line(&line, open_divs, deepest);
        open_divs = depth.0;
        deepest = depth.1;
        from = next;
    }
    deepest
}

proof fn line_bytes(text: Seq<char>, from: int, stop: int, next: int)
    requires
        0 <= from <= stop <= next <= text.len(),
    ensures
        byte_len(text.take(from)) + byte_len(text.subrange(from, stop)) <= byte_len(text.take(next)),
        byte_len(text.take(next)) <= byte_len(text),
{
    crate::text::encode_utf8_concat(text.take(from), text.subrange(from, stop));
    assert(text.take(from) + text.subrange(from, stop) =~= text.take(stop));
    assert(text.take(next).take(stop) =~= text.take(stop));
    prefix_within(text.take(next), stop);
    prefix_within(text, next);
}

/// Whether `text` nests deeply enough to risk exhausting the stack.
pub fn is_too_deep(text: &str) -> (deep: bool)
    ensures
        deep == too_deep(text@),
{
    nesting_depth(text) > MAX_NESTING_DEPTH
}

} // verus!
