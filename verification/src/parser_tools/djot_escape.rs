//! Turn arbitrary plain text into Djot that renders it back.
//!
//! The inverse of [`djot_to_plain_text`]. Two levels, because Djot has two:
//!
//! * [`escape_djot_inline`] neutralises the characters that can start *inline* markup
//!   anywhere in a line.
//! * [`guard_djot_block_start`] neutralises the markers that mean something only at the
//!   **start of a line**: a leading `#` is a heading, a leading `- ` a list item, and no
//!   amount of inline escaping reaches them.
//!
//! [`plain_text_to_djot`] composes both over every line, which is what a caller
//! converting a whole stored string wants.
use vstd::prelude::*;

use crate::chars::{digit, part};
use crate::models::group_deep_view;
use crate::parser_tools::djot::{
    djot_event_stream, djot_plain_text, djot_to_plain_text, joined, parser_bears, DjotEventModel,
};
use crate::parser_tools::djot_depth::too_deep;
use crate::parser_tools::djot_options::DjotImportOptions;
use crate::parser_tools::djot_plain::{
    ascii_punctuation, ascii_white, bare_white, block_special, core_of, escaped_line,
    escaped_lines, inline_special, kept_texts, line_text, plain_lines, spelled,
    spelled_paragraphs, tells_no_more, tells_prose, told_paragraphs_read_as_lines,
    told_text_is_not_longer, without_end, without_start, MarkedLine,
};
use crate::parser_tools::reader_laws::too_deep_source_is_kept;
use crate::text::{from_chars, same_text, to_chars};

verus! {

broadcast use group_deep_view;

/// A text with a backslash before each character that can start inline markup.
pub open spec fn escaped(text: Seq<char>) -> Seq<char>
    decreases text.len(),
{
    if text.len() == 0 {
        Seq::empty()
    } else {
        let rest = escaped(text.drop_last());
        if inline_special(text.last()) {
            rest.push('\\').push(text.last())
        } else {
            rest.push(text.last())
        }
    }
}

/// The characters with a backslash before each that can start inline markup.
fn escape_chars(chars: &[char]) -> (out: Vec<char>)
    ensures
        out@ == escaped(chars@),
{
    let mut out: Vec<char> = Vec::new();
    for i in 0..chars.len()
        invariant
            out@ == escaped(chars@.take(i as int)),
    {
        assert(chars@.take(i + 1).drop_last() =~= chars@.take(i as int));
        let c = chars[i];
        if c == '\\' || c == '*' || c == '_' || c == '`' || c == '~' || c == '^' || c == '[' || c
            == ']' || c == '(' || c == ')' || c == '{' || c == '}' || c == '|' || c == '<' {
            out.push('\\');
        }
        out.push(c);
    }
    assert(chars@.take(chars@.len() as int) =~= chars@);
    out
}

/// Backslash-escape every character that can trigger Djot *inline* markup, so arbitrary
/// text survives a re-parse.
///
/// The parser turns `\x` into an escape followed by the literal character, so
/// **over-escaping is always round-trip-safe**, which is why this takes the whole
/// punctuation set.
///
/// Block-start markers (`#`, `>`, `-`, ..) are *not* covered here: they are only
/// meaningful at the start of a line. Use [`guard_djot_block_start`] for those.
pub fn escape_djot_inline(s: &str) -> (out: String)
    ensures
        out@ == escaped(s@),
{
    let chars = to_chars(s);
    from_chars(escape_chars(chars.as_slice()).as_slice())
}

/// The number of digits that a text, from `i` on, begins with.
pub open spec fn digits_end(text: Seq<char>, i: int) -> int
    decreases text.len() - i,
{
    if 0 <= i < text.len() && digit(text[i]) {
        digits_end(text, i + 1)
    } else {
        i
    }
}

/// A line that is not read as a block construct: a marker is escaped; of the
/// number of a list item, the delimiter is.
pub open spec fn guarded(line: Seq<char>) -> Seq<char> {
    let end = digits_end(line, 0);
    if line.len() == 0 {
        line
    } else if block_special(line[0]) {
        seq!['\\'] + line
    } else if 0 < end < line.len() && (line[end] == '.' || line[end] == ')') {
        line.take(end) + seq!['\\'] + line.skip(end)
    } else {
        line
    }
}

/// The characters of a line that is not read as a block construct.
fn guard_chars(line: &[char]) -> (out: Vec<char>)
    ensures
        out@ == guarded(line@),
{
    if line.len() == 0 {
        return part(line, 0, 0);
    }
    let first = line[0];
    let mut at: usize = 0;
    if !(first == '#' || first == '>' || first == '-' || first == '+' || first == ':') {
        while at < line.len() && '0' <= line[at] && line[at] <= '9'
            invariant
                at <= line@.len(),
                digits_end(line@, 0) == digits_end(line@, at as int),
            decreases line@.len() - at,
        {
            at += 1;
        }
        if at == 0 || at == line.len() || !(line[at] == '.' || line[at] == ')') {
            let out = part(line, 0, line.len());
            assert(out@ =~= line@);
            return out;
        }
    }
    let mut out = part(line, 0, at);
    let mut rest = part(line, at, line.len());
    out.push('\\');
    out.append(&mut rest);
    assert(out@ =~= guarded(line@));
    out
}

/// Neutralise a line's leading characters so they are not parsed as a block-construct
/// marker.
///
/// Covers the block-only markers (`#`, `>`, `-`, `+`, `:`) and the ordered-list forms
/// `<digits>.` and `<digits>)`. Inline specials are [`escape_djot_inline`]'s job.
///
/// For the ordered-list case the **delimiter** is escaped rather than the digit: a
/// backslash before a digit is a literal backslash in Djot.
pub fn guard_djot_block_start(s: &str) -> (out: String)
    ensures
        out@ == guarded(s@),
{
    let chars = to_chars(s);
    from_chars(guard_chars(chars.as_slice()).as_slice())
}

/// The position of the first newline of a text from `from` on, or its end.
pub open spec fn newline_from(text: Seq<char>, from: int) -> int {
    crate::parser_tools::djot_depth::line_end(text, from)
}

/// What stands between the newlines of a text from `from` on, without what is empty.
pub open spec fn nonempty_lines(text: Seq<char>, from: int) -> Seq<Seq<char>>
    decreases text.len() - from,
{
    let end = newline_from(text, from);
    if 0 <= from <= end <= text.len() {
        let line = text.subrange(from, end);
        let head = if line.len() > 0 {
            seq![line]
        } else {
            Seq::empty()
        };
        if end < text.len() {
            head + nonempty_lines(text, end + 1)
        } else {
            head
        }
    } else {
        Seq::empty()
    }
}

/// Lines as Djot paragraphs, with an empty line between each two.
pub open spec fn paragraphs(lines: Seq<Seq<char>>) -> Seq<char>
    decreases lines.len(),
{
    if lines.len() == 0 {
        Seq::empty()
    } else if lines.len() == 1 {
        guarded(escaped(lines[0]))
    } else {
        paragraphs(lines.drop_last()) + "\n\n"@ + guarded(escaped(lines.last()))
    }
}

/// A plain text as Djot: each line that is not empty as a paragraph.
pub open spec fn text_as_djot(text: Seq<char>) -> Seq<char> {
    paragraphs(nonempty_lines(text, 0))
}

/// Convert a whole plain-text string into Djot that parses back to that text.
///
/// Escapes inline markup everywhere and guards each line's own start, since a line
/// beginning `- ` is a list item wherever it sits in the string, not only in the first.
///
/// A single newline *inside* a Djot paragraph is a soft break, which reads back as a
/// space, so each line becomes its own paragraph. Blank lines in the input collapse:
/// no string containing one is in the image of the parse.
///
/// A text whose lines all [survive](survives) comes back exactly where it has no blank
/// line and no white space at the end of a line (see [`plain_text_reads_back`]). Use
/// [`djot_round_trip_is_lossy`] to find values a conversion would alter.
pub fn plain_text_to_djot(s: &str) -> (out: String)
    ensures
        out@ == text_as_djot(s@),
{
    let text = to_chars(s);
    let mut out = String::new();
    let mut first: bool = true;
    let mut from: usize = 0;
    let ghost mut done: Seq<Seq<char>> = Seq::empty();
    let ghost all = nonempty_lines(text@, 0);
    proof {
        assert(done + all =~= all);
        assert(out@ =~= paragraphs(done));
    }
    loop
        invariant_except_break
            all == done + nonempty_lines(text@, from as int),
        invariant
            text@ == s@,
            all == nonempty_lines(text@, 0),
            from <= text@.len(),
            first == (done.len() == 0),
            out@ == paragraphs(done),
        ensures
            out@ == paragraphs(all),
        decreases text@.len() - from,
    {
        let mut end: usize = from;
        while end < text.len() && text[end] != '\n'
            invariant
                from <= end <= text@.len(),
                newline_from(text@, from as int) == newline_from(text@, end as int),
            decreases text@.len() - end,
        {
            end += 1;
        }
        let line = part(text.as_slice(), from, end);
        let ghost before = done;
        if line.len() > 0 {
            if !first {
                out.push_str("\n\n");
            }
            first = false;
            let guarded_line = guard_chars(escape_chars(line.as_slice()).as_slice());
            out.push_str(from_chars(guarded_line.as_slice()).as_str());
            proof {
                done = before.push(line@);
                assert(done.drop_last() =~= before);
                assert(out@ =~= paragraphs(done));
            }
        }
        proof {
            let head = if line@.len() > 0 {
                seq![line@]
            } else {
                Seq::empty()
            };
            assert(done =~= before + head);
            if end < text@.len() {
                let rest = nonempty_lines(text@, end + 1);
                assert(before + (head + rest) =~= done + rest);
            }
        }
        if end == text.len() {
            break ;
        }
        from = end + 1;
    }
    out
}

/// Whether [`plain_text_to_djot`] would rewrite `s` at all.
///
/// For a caller migrating a stored field from plain text to Djot: a value this returns
/// `false` for can be left byte-identical on disk. Note this asks whether the **stored
/// bytes** change, not whether meaning survives. For that, see
/// [`djot_round_trip_is_lossy`]: the two are independent.
pub fn needs_djot_escaping(s: &str) -> (needed: bool)
    ensures
        needed == (text_as_djot(s@) != s@),
{
    !same_text(plain_text_to_djot(s).as_str(), s)
}

/// What a plain text reads back as from its Djot, which has these events.
pub open spec fn read_back(
    text: Seq<char>,
    events: Seq<DjotEventModel>,
) -> Seq<char> {
    djot_plain_text(text_as_djot(text), events, DjotImportOptions::lossless())
}

/// Where a line gets a backslash so that it is no block construct, or -1.
pub open spec fn guard_at(line: Seq<char>) -> int {
    let end = digits_end(line, 0);
    if line.len() > 0 && block_special(line[0]) {
        0
    } else if 0 < end < line.len() && line[end] == '.' {
        end
    } else {
        -1
    }
}

/// A line with the places where it gets a backslash.
pub open spec fn marked(line: Seq<char>) -> MarkedLine {
    Seq::new(line.len(), |i: int| (line[i], inline_special(line[i]) || i == guard_at(line)))
}

/// A line with the places where a character that can start inline markup
/// stands.
spec fn inline_marked(line: Seq<char>) -> MarkedLine {
    Seq::new(line.len(), |i: int| (line[i], inline_special(line[i])))
}

proof fn digits_end_bounds(line: Seq<char>, i: int)
    requires
        0 <= i <= line.len(),
    ensures
        i <= digits_end(line, i) <= line.len(),
        forall|k: int| i <= k < digits_end(line, i) ==> digit(#[trigger] line[k]),
        digits_end(line, i) < line.len() ==> !digit(line[digits_end(line, i)]),
    decreases line.len() - i,
{
    if i < line.len() && digit(line[i]) {
        digits_end_bounds(line, i + 1);
    }
}

/// Lines that begin with the same digits, up to a character that is none.
proof fn digits_end_agrees(a: Seq<char>, b: Seq<char>, i: int, end: int)
    requires
        0 <= i <= end <= a.len(),
        end <= b.len(),
        forall|k: int| i <= k < end ==> digit(#[trigger] a[k]) && a[k] == b[k],
        end < b.len() ==> !digit(b[end]),
    ensures
        digits_end(b, i) == end,
    decreases end - i,
{
    if i < end {
        assert(digit(a[i]));
        digits_end_agrees(a, b, i + 1, end);
    }
}

pub(crate) proof fn spelled_concat(a: MarkedLine, b: MarkedLine)
    ensures
        spelled(a + b) == spelled(a) + spelled(b),
    decreases b.len(),
{
    if b.len() == 0 {
        assert(a + b =~= a);
        assert(spelled(a) + spelled(b) =~= spelled(a));
    } else {
        spelled_concat(a, b.drop_last());
        assert((a + b).drop_last() =~= a + b.drop_last());
        assert(spelled(a + b) =~= spelled(a) + spelled(b));
    }
}

pub(crate) proof fn spelled_one(mark: (char, bool))
    ensures
        spelled(seq![mark]) == if mark.1 {
            seq!['\\', mark.0]
        } else {
            seq![mark.0]
        },
{
    let line = seq![mark];
    assert(line.drop_last() =~= Seq::empty());
    assert(spelled(line.drop_last()) =~= Seq::<char>::empty());
    assert(spelled(line) =~= if mark.1 {
        seq!['\\', mark.0]
    } else {
        seq![mark.0]
    });
}

/// Where no character has a backslash, a line is written as it is.
pub(crate) proof fn spelled_bare(line: MarkedLine)
    requires
        forall|i: int| 0 <= i < line.len() ==> !(#[trigger] line[i]).1,
    ensures
        spelled(line).len() == line.len(),
        forall|i: int| 0 <= i < line.len() ==> #[trigger] spelled(line)[i] == line[i].0,
    decreases line.len(),
{
    if line.len() > 0 {
        spelled_bare(line.drop_last());
    }
}

proof fn escaped_is_spelled(line: Seq<char>)
    ensures
        escaped(line) == spelled(inline_marked(line)),
    decreases line.len(),
{
    if line.len() > 0 {
        escaped_is_spelled(line.drop_last());
        assert(inline_marked(line).drop_last() =~= inline_marked(line.drop_last()));
    }
}

/// What a line is written as: a backslash before each character that can start
/// inline markup, and before the one that would make it a block construct.
proof fn guarded_is_spelled(line: Seq<char>)
    ensures
        guarded(escaped(line)) == spelled(marked(line)),
{
    let bare = inline_marked(line);
    let written = escaped(line);
    escaped_is_spelled(line);
    if line.len() == 0 {
        assert(marked(line) =~= bare);
        assert(written =~= line);
    } else {
        digits_end_bounds(line, 0);
        let end = digits_end(line, 0);
        let head = bare.take(end);
        let tail = bare.skip(end);
        assert(bare =~= head + tail);
        spelled_concat(head, tail);
        spelled_bare(head);
        assert(spelled(head) =~= line.take(end));
        if end < line.len() {
            let mark = bare[end];
            let rest = bare.skip(end + 1);
            assert(tail =~= seq![mark] + rest);
            spelled_concat(seq![mark], rest);
            spelled_one(mark);
            digits_end_agrees(line, written, 0, end);
            let guard = guard_at(line);
            if guard < 0 {
                assert(marked(line) =~= bare);
                assert(guarded(written) =~= written);
            } else {
                assert(guard == end);
                let kept = (mark.0, true);
                assert(marked(line) =~= head + (seq![kept] + rest));
                spelled_concat(head, seq![kept] + rest);
                spelled_concat(seq![kept], rest);
                spelled_one(kept);
                assert(written.take(end) =~= line.take(end));
                assert(written.skip(end) =~= seq![mark.0] + spelled(rest));
                assert(guarded(written) =~= spelled(marked(line)));
            }
        } else {
            assert(marked(line) =~= bare);
            assert(written =~= line);
            digits_end_agrees(line, written, 0, end);
            assert(guarded(written) =~= written);
        }
    }
}

/// The lines of a text with the places where each gets a backslash.
pub open spec fn marked_lines(lines: Seq<Seq<char>>) -> Seq<MarkedLine> {
    lines.map_values(|line: Seq<char>| marked(line))
}

pub(crate) proof fn paragraphs_are_spelled(lines: Seq<Seq<char>>)
    ensures
        paragraphs(lines) == spelled_paragraphs(marked_lines(lines)),
    decreases lines.len(),
{
    let all = marked_lines(lines);
    if lines.len() == 1 {
        guarded_is_spelled(lines[0]);
    } else if lines.len() > 1 {
        paragraphs_are_spelled(lines.drop_last());
        assert(all.drop_last() =~= marked_lines(lines.drop_last()));
        guarded_is_spelled(lines.last());
    }
}

/// A line without the white space it begins with.
pub open spec fn unindented(line: Seq<char>) -> Seq<char>
    decreases line.len(),
{
    if line.len() > 0 && ascii_white(line[0]) {
        unindented(line.skip(1))
    } else {
        line
    }
}

/// A line without the white space it ends with.
pub open spec fn unpadded(line: Seq<char>) -> Seq<char>
    decreases line.len(),
{
    if line.len() > 0 && ascii_white(line.last()) {
        unpadded(line.drop_last())
    } else {
        line
    }
}

/// Lines without the white space around them. One that is white space alone is left
/// out.
pub open spec fn trimmed_lines(lines: Seq<Seq<char>>) -> Seq<Seq<char>>
    decreases lines.len(),
{
    if lines.len() == 0 {
        Seq::empty()
    } else {
        let rest = trimmed_lines(lines.drop_last());
        let line = unpadded(unindented(lines.last()));
        if line.len() == 0 {
            rest
        } else {
            rest.push(line)
        }
    }
}

/// Whether no white space with a backslash is in a marked line.
spec fn white_is_bare(line: MarkedLine) -> bool {
    forall|i: int| 0 <= i < line.len() && ascii_white((#[trigger] line[i]).0) ==> !line[i].1
}

proof fn start_is_unindented(line: MarkedLine)
    requires
        white_is_bare(line),
    ensures
        line_text(without_start(line)) == unindented(line_text(line)),
        white_is_bare(without_start(line)),
    decreases line.len(),
{
    let text = line_text(line);
    if line.len() > 0 {
        assert(text[0] == line[0].0);
        if bare_white(line[0]) {
            assert(white_is_bare(line.skip(1)));
            assert(line_text(line.skip(1)) =~= text.skip(1));
            start_is_unindented(line.skip(1));
        }
    }
}

proof fn end_is_unpadded(line: MarkedLine)
    requires
        white_is_bare(line),
    ensures
        line_text(without_end(line)) == unpadded(line_text(line)),
    decreases line.len(),
{
    let text = line_text(line);
    if line.len() > 0 {
        assert(text.last() == line.last().0);
        assert(line.last() == line[line.len() - 1]);
        if bare_white(line.last()) {
            assert(white_is_bare(line.drop_last()));
            assert(line_text(line.drop_last()) =~= text.drop_last());
            end_is_unpadded(line.drop_last());
        }
    }
}

proof fn kept_texts_are_trimmed(lines: Seq<Seq<char>>)
    ensures
        kept_texts(marked_lines(lines)) == trimmed_lines(lines),
    decreases lines.len(),
{
    if lines.len() > 0 {
        let all = marked_lines(lines);
        kept_texts_are_trimmed(lines.drop_last());
        assert(all.drop_last() =~= marked_lines(lines.drop_last()));
        let last = marked(lines.last());
        assert(all.last() == last);
        digits_end_bounds(lines.last(), 0);
        assert(white_is_bare(last));
        assert(line_text(last) =~= lines.last());
        start_is_unindented(last);
        end_is_unpadded(without_start(last));
        assert(line_text(core_of(last)).len() == core_of(last).len());
    } else {
        assert(marked_lines(lines) =~= Seq::empty());
    }
}

/// Whether each line of a text is written as prose and nothing else, but for white
/// space around it. What is not: a line with a quote; with a dash of two hyphens or
/// an ellipsis of three periods, the one that gets a backslash apart; with a
/// symbol such as `:name:`; that begins as an item of a list with letters or
/// Roman numbers, such as `a. x`; or that has a block construct behind white space.
pub open spec fn survives(text: Seq<char>) -> bool {
    plain_lines(marked_lines(nonempty_lines(text, 0)))
}

/// Whether white space is at an end of a line.
pub open spec fn is_padded(line: Seq<char>) -> bool {
    line.len() > 0 && (ascii_white(line[0]) || ascii_white(line.last()))
}

/// Whether a line of a text has white space at an end.
pub open spec fn has_padded_line(text: Seq<char>) -> bool {
    exists|i: int|
        0 <= i < nonempty_lines(text, 0).len() && is_padded(#[trigger] nonempty_lines(text, 0)[i])
}

proof fn unindented_len(line: Seq<char>)
    ensures
        unindented(line).len() <= line.len(),
        line.len() > 0 && ascii_white(line[0]) ==> unindented(line).len() < line.len(),
        unindented(line).len() == line.len() ==> unindented(line) == line,
        unindented(line).len() > 0 ==> unindented(line).last() == line.last(),
    decreases line.len(),
{
    if line.len() > 0 && ascii_white(line[0]) {
        unindented_len(line.skip(1));
    }
}

proof fn unpadded_len(line: Seq<char>)
    ensures
        unpadded(line).len() <= line.len(),
        line.len() > 0 && ascii_white(line.last()) ==> unpadded(line).len() < line.len(),
        unpadded(line).len() == line.len() ==> unpadded(line) == line,
    decreases line.len(),
{
    if line.len() > 0 && ascii_white(line.last()) {
        unpadded_len(line.drop_last());
    }
}

/// How long lines are that are joined.
proof fn joined_len(lines: Seq<Seq<char>>, line: Seq<char>)
    ensures
        joined(lines.push(line)).len() == if lines.len() == 0 {
            line.len()
        } else {
            joined(lines).len() + 1 + line.len()
        },
{
    assert(lines.push(line).drop_last() =~= lines);
}

proof fn trimming_shortens(lines: Seq<Seq<char>>)
    requires
        forall|i: int| 0 <= i < lines.len() ==> (#[trigger] lines[i]).len() > 0,
    ensures
        joined(trimmed_lines(lines)).len() <= joined(lines).len(),
        trimmed_lines(lines).len() <= lines.len(),
        (exists|i: int| 0 <= i < lines.len() && is_padded(#[trigger] lines[i])) ==> joined(
            trimmed_lines(lines),
        ).len() < joined(lines).len(),
        !(exists|i: int| 0 <= i < lines.len() && is_padded(#[trigger] lines[i])) ==> trimmed_lines(
            lines,
        ) == lines,
    decreases lines.len(),
{
    if lines.len() == 0 {
        assert(trimmed_lines(lines) =~= lines);
    } else {
        let rest = lines.drop_last();
        let last = lines.last();
        assert(last == lines[lines.len() - 1]);
        assert forall|i: int| 0 <= i < rest.len() implies (#[trigger] rest[i]).len() > 0 by {
            assert(rest[i] == lines[i]);
        }
        trimming_shortens(rest);
        let cut = unpadded(unindented(last));
        unindented_len(last);
        unpadded_len(unindented(last));
        assert(rest.push(last) =~= lines);
        joined_len(rest, last);
        joined_len(trimmed_lines(rest), cut);
        if exists|i: int| 0 <= i < rest.len() && is_padded(#[trigger] rest[i]) {
            let i = choose|i: int| 0 <= i < rest.len() && is_padded(#[trigger] rest[i]);
            assert(is_padded(lines[i]));
        } else if !is_padded(last) {
            assert(unindented(last) == last);
            assert(cut == last);
            assert(trimmed_lines(lines) =~= lines);
            assert forall|i: int| 0 <= i < lines.len() implies !is_padded(#[trigger] lines[i]) by {
                if i < rest.len() {
                    assert(lines[i] == rest[i]);
                }
            }
        } else {
            assert(cut.len() < last.len());
        }
        if trimmed_lines(rest).len() == 0 {
            assert(joined(trimmed_lines(rest)).len() == 0);
        }
    }
}

proof fn lines_have_no_newline(text: Seq<char>, from: int)
    requires
        0 <= from <= text.len(),
    ensures
        forall|i: int, k: int|
            0 <= i < nonempty_lines(text, from).len() && 0 <= k < nonempty_lines(
                text,
                from,
            )[i].len() ==> (#[trigger] nonempty_lines(text, from)[i][k]) != '\n',
    decreases text.len() - from,
{
    newline_bounds(text, from);
    let end = newline_from(text, from);
    let lines = nonempty_lines(text, from);
    let line = text.subrange(from, end);
    let rest = if end < text.len() {
        nonempty_lines(text, end + 1)
    } else {
        Seq::empty()
    };
    if end < text.len() {
        lines_have_no_newline(text, end + 1);
    }
    assert forall|i: int, k: int|
        0 <= i < lines.len() && 0 <= k < lines[i].len() implies (#[trigger] lines[i][k]) != '\n' by {
        if lines.len() == rest.len() {
            assert(lines =~= rest);
            assert(rest[i][k] != '\n');
        } else if i > 0 {
            assert(lines[i] == rest[i - 1]);
            assert(rest[i - 1][k] != '\n');
        } else {
            assert(lines[i] == line);
            assert(line[k] == text[from + k]);
        }
    }
}

/// What the lines of a text are written as has a backslash before each character that
/// can start inline markup.
proof fn text_lines_are_escaped(text: Seq<char>)
    ensures
        escaped_lines(marked_lines(nonempty_lines(text, 0))),
{
    let lines = nonempty_lines(text, 0);
    lines_have_no_newline(text, 0);
    assert forall|i: int| 0 <= i < lines.len() implies escaped_line(
        #[trigger] marked_lines(lines)[i],
    ) by {
        let line = marked(lines[i]);
        digits_end_bounds(lines[i], 0);
        assert forall|k: int| 0 <= k < line.len() implies {
            &&& (#[trigger] line[k]).0 != '\n'
            &&& inline_special(line[k].0) ==> line[k].1
            &&& line[k].1 ==> ascii_punctuation(line[k].0)
        } by {
            assert(lines[i][k] != '\n');
        }
    }
}

pub(crate) proof fn lines_are_filled(text: Seq<char>, from: int)
    ensures
        forall|i: int|
            0 <= i < nonempty_lines(text, from).len() ==> (#[trigger] nonempty_lines(
                text,
                from,
            )[i]).len() > 0,
    decreases text.len() - from,
{
    let end = newline_from(text, from);
    let lines = nonempty_lines(text, from);
    if 0 <= from <= end < text.len() {
        lines_are_filled(text, end + 1);
        let rest = nonempty_lines(text, end + 1);
        assert forall|i: int| 0 <= i < lines.len() implies (#[trigger] lines[i]).len() > 0 by {
            if lines.len() == rest.len() {
                assert(lines =~= rest);
            } else if i > 0 {
                assert(lines[i] == rest[i - 1]);
            }
        }
    }
}

/// Whether a text has a blank line: a newline at its start or its end, or two in
/// a row.
pub open spec fn has_blank_line(text: Seq<char>) -> bool {
    &&& text.len() > 0
    &&& {
        ||| text[0] == '\n'
        ||| text.last() == '\n'
        ||| exists|i: int| 0 <= i < text.len() - 1 && #[trigger] text[i] == '\n' && text[i + 1] == '\n'
    }
}

/// Whether no line of a text from `from` on is empty.
spec fn lines_filled(text: Seq<char>, from: int) -> bool
    decreases text.len() - from,
{
    let end = newline_from(text, from);
    &&& 0 <= from < end <= text.len()
    &&& end < text.len() ==> lines_filled(text, end + 1)
}

proof fn newline_bounds(text: Seq<char>, from: int)
    requires
        0 <= from <= text.len(),
    ensures
        from <= newline_from(text, from) <= text.len(),
        newline_from(text, from) < text.len() ==> text[newline_from(text, from)] == '\n',
        forall|i: int| from <= i < newline_from(text, from) ==> #[trigger] text[i] != '\n',
    decreases text.len() - from,
{
    if from < text.len() && text[from] != '\n' {
        newline_bounds(text, from + 1);
    }
}

proof fn filled_lines_have_no_blank(text: Seq<char>, from: int)
    requires
        0 <= from <= text.len(),
    ensures
        lines_filled(text, from) <==> from < text.len() && text[from] != '\n' && text.last() != '\n'
            && forall|i: int|
            from <= i < text.len() - 1 && #[trigger] text[i] == '\n' ==> text[i + 1] != '\n',
    decreases text.len() - from,
{
    newline_bounds(text, from);
    let end = newline_from(text, from);
    if from < end < text.len() {
        filled_lines_have_no_blank(text, end + 1);
        if lines_filled(text, end + 1) {
            assert forall|i: int| from <= i < text.len() - 1 && #[trigger] text[i]
                == '\n' implies text[i + 1] != '\n' by {}
        } else if end + 1 == text.len() {
            assert(text.last() == text[end]);
        } else if text[end + 1] == '\n' {
            assert(text[end] == '\n');
        }
    }
}

proof fn joined_head(head: Seq<char>, rest: Seq<Seq<char>>)
    requires
        rest.len() > 0,
    ensures
        joined(seq![head] + rest) == head + seq!['\n'] + joined(rest),
    decreases rest.len(),
{
    let all = seq![head] + rest;
    if rest.len() == 1 {
        assert(all.drop_last() =~= seq![head]);
        assert(joined(seq![head]) == head);
        assert(all.last() == rest[0]);
        assert(joined(all) =~= head + seq!['\n'] + joined(rest));
    } else {
        joined_head(head, rest.drop_last());
        assert(all.drop_last() =~= seq![head] + rest.drop_last());
        assert(all.last() == rest.last());
        assert(joined(all) =~= head + seq!['\n'] + joined(rest));
    }
}

proof fn joined_lines(text: Seq<char>, from: int)
    requires
        0 <= from <= text.len(),
    ensures
        joined(nonempty_lines(text, from)).len() <= text.len() - from,
        lines_filled(text, from) ==> nonempty_lines(text, from).len() > 0 && joined(
            nonempty_lines(text, from),
        ) == text.skip(from),
        from < text.len() && !lines_filled(text, from) ==> joined(nonempty_lines(text, from)).len()
            < text.len() - from,
    decreases text.len() - from,
{
    newline_bounds(text, from);
    let end = newline_from(text, from);
    let line = text.subrange(from, end);
    let lines = nonempty_lines(text, from);
    if end < text.len() {
        joined_lines(text, end + 1);
        let rest = nonempty_lines(text, end + 1);
        if line.len() == 0 {
            assert(lines =~= rest);
        } else if rest.len() == 0 {
            assert(lines =~= seq![line]);
        } else {
            joined_head(line, rest);
            if lines_filled(text, from) {
                assert(joined(lines) =~= text.skip(from));
            }
        }
    } else if line.len() == 0 {
        assert(lines =~= Seq::empty());
    } else {
        assert(lines =~= seq![line]);
        assert(joined(lines) =~= text.skip(from));
    }
}

/// The lines of a text that are not empty, joined, are the text just where it has
/// no blank line.
pub proof fn blank_lines_are_lost(text: Seq<char>)
    ensures
        joined(nonempty_lines(text, 0)) == text <==> !has_blank_line(text),
{
    joined_lines(text, 0);
    filled_lines_have_no_blank(text, 0);
    if text.len() == 0 {
        assert(joined(nonempty_lines(text, 0)) =~= text);
    } else {
        assert(text.skip(0) =~= text);
        if lines_filled(text, 0) {
            assert(!has_blank_line(text));
        } else {
            assert(has_blank_line(text));
        }
    }
}

/// A text whose lines are written as prose reads back as its lines without the white
/// space around them, those apart that are left empty. So it comes back unchanged where
/// it has no blank line and no white space at the end of a line, and only there.
pub proof fn plain_text_reads_back(text: Seq<char>, events: Seq<DjotEventModel>)
    requires
        survives(text),
        !too_deep(text_as_djot(text)),
        tells_prose(text_as_djot(text), events),
    ensures
        read_back(text, events) == joined(trimmed_lines(nonempty_lines(text, 0))),
        read_back(text, events) == text <==> !has_blank_line(text) && !has_padded_line(text),
{
    let lines = nonempty_lines(text, 0);
    paragraphs_are_spelled(lines);
    kept_texts_are_trimmed(lines);
    assert(text_as_djot(text) == spelled_paragraphs(marked_lines(lines)));
    told_paragraphs_read_as_lines(
        text_as_djot(text),
        events,
        trimmed_lines(lines),
        DjotImportOptions::lossless(),
    );
    padding_is_lost(text);
}

/// The lines of a text without the white space around them, joined, are the text just
/// where it has no blank line and no white space at the end of a line. Where it has, they
/// are shorter.
pub proof fn padding_is_lost(text: Seq<char>)
    ensures
        joined(trimmed_lines(nonempty_lines(text, 0))) == text <==> !has_blank_line(text)
            && !has_padded_line(text),
        has_blank_line(text) || has_padded_line(text) ==> joined(
            trimmed_lines(nonempty_lines(text, 0)),
        ).len() < text.len(),
{
    let lines = nonempty_lines(text, 0);
    blank_lines_are_lost(text);
    lines_are_filled(text, 0);
    trimming_shortens(lines);
    joined_lines(text, 0);
    filled_lines_have_no_blank(text, 0);
    if has_blank_line(text) {
        assert(!lines_filled(text, 0));
    }
}

/// A text that has a blank line or white space at the end of a line does not read back
/// as itself, whatever else is in it: what reads back is shorter.
pub proof fn lost_white_space_does_not_read_back(text: Seq<char>, events: Seq<DjotEventModel>)
    requires
        !too_deep(text_as_djot(text)),
        tells_no_more(text_as_djot(text), events),
        has_blank_line(text) || has_padded_line(text),
    ensures
        read_back(text, events).len() < text.len(),
{
    let lines = nonempty_lines(text, 0);
    paragraphs_are_spelled(lines);
    kept_texts_are_trimmed(lines);
    text_lines_are_escaped(text);
    assert(text_as_djot(text) == spelled_paragraphs(marked_lines(lines)));
    told_text_is_not_longer(text_as_djot(text), events, DjotImportOptions::lossless());
    padding_is_lost(text);
}

/// A text whose Djot nests too deep reads back as that Djot.
pub proof fn deep_text_reads_back_as_its_djot(text: Seq<char>, events: Seq<DjotEventModel>)
    requires
        too_deep(text_as_djot(text)),
    ensures
        read_back(text, events) == text_as_djot(text),
{
    too_deep_source_is_kept(text_as_djot(text), events, DjotImportOptions::lossless());
}

/// Whether converting `s` to Djot and reading it back would **lose text**.
///
/// Distinct from [`needs_djot_escaping`], and not derivable from it: the escape is a pure
/// string transform, while this runs the real parse. Two shapes are outside of what a Djot
/// parse gives, so no encoding can recover them and this reports both, whatever else is in
/// the text (see [`lost_white_space_does_not_read_back`]): a blank line, and white space at
/// the end of a line. Text whose Djot nests too deep is not parsed, so neither is lost there.
///
/// A migration should report the values this flags rather than rewrite them silently.
pub fn djot_round_trip_is_lossy(s: &str) -> (lossy: bool)
    requires
        too_deep(text_as_djot(s@)) || parser_bears(text_as_djot(s@)),
    ensures
        lossy == (read_back(s@, djot_event_stream(text_as_djot(s@))) != s@),
        survives(s@) && !too_deep(text_as_djot(s@)) ==> lossy == (has_blank_line(s@)
            || has_padded_line(s@)),
        !too_deep(text_as_djot(s@)) && (has_blank_line(s@) || has_padded_line(s@)) ==> lossy,
        too_deep(text_as_djot(s@)) ==> lossy == (text_as_djot(s@) != s@),
{
    proof {
        paragraphs_are_spelled(nonempty_lines(s@, 0));
        kept_texts_are_trimmed(nonempty_lines(s@, 0));
        text_lines_are_escaped(s@);
        padding_is_lost(s@);
        if too_deep(text_as_djot(s@)) {
            deep_text_reads_back_as_its_djot(s@, djot_event_stream(text_as_djot(s@)));
        }
    }
    let djot = plain_text_to_djot(s);
    let back = djot_to_plain_text(djot.as_str(), &DjotImportOptions::default());
    !same_text(back.as_str(), s)
}

} // verus!
