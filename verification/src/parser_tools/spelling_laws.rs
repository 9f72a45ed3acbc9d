//! How a plain text is spelled in Djot, stated over its characters and lines.
use vstd::prelude::*;

use crate::parser_tools::djot_depth::line_end;
use crate::parser_tools::djot_escape::{
    digits_end, escaped, guarded, nonempty_lines, paragraphs, text_as_djot,
};
use crate::parser_tools::djot_plain::{block_special, inline_special};

verus! {

/// The characters that can start inline markup are the backslash, the asterisk, the
/// underscore, the backtick, the tilde, the caret, the brackets of all four kinds that Djot
/// reads, and the bar.
pub proof fn inline_specials_are(c: char)
    ensures
        inline_special(c) <==> {
            ||| c == '\u{5C}'
            ||| c == '\u{2A}'
            ||| c == '\u{5F}'
            ||| c == '\u{60}'
            ||| c == '\u{7E}'
            ||| c == '\u{5E}'
            ||| c == '\u{5B}'
            ||| c == '\u{5D}'
            ||| c == '\u{28}'
            ||| c == '\u{29}'
            ||| c == '\u{7B}'
            ||| c == '\u{7D}'
            ||| c == '\u{7C}'
            ||| c == '\u{3C}'
        },
        block_special(c) <==> {
            ||| c == '\u{23}'
            ||| c == '\u{3E}'
            ||| c == '\u{2D}'
            ||| c == '\u{2B}'
            ||| c == '\u{3A}'
        },
{
}

proof fn escapes_add_up(a: Seq<char>, b: Seq<char>)
    ensures
        escaped(a + b) == escaped(a) + escaped(b),
    decreases b.len(),
{
    if b.len() == 0 {
        assert(a + b =~= a);
        assert(escaped(a) + escaped(b) =~= escaped(a));
    } else {
        escapes_add_up(a, b.drop_last());
        assert((a + b).drop_last() =~= a + b.drop_last());
        assert((a + b).last() == b.last());
        assert(escaped(a + b) =~= escaped(a) + escaped(b));
    }
}

/// Escaping puts a backslash before each character that can start inline markup, wherever it
/// stands, and changes nothing else.
pub proof fn escaping_is_of_specials(a: Seq<char>, c: char, b: Seq<char>)
    ensures
        escaped(Seq::empty()).len() == 0,
        inline_special(c) ==> escaped(a + seq![c] + b) == escaped(a) + seq!['\\', c] + escaped(b),
        !inline_special(c) ==> escaped(a + seq![c] + b) == escaped(a) + seq![c] + escaped(b),
{
    escapes_add_up(a, seq![c]);
    escapes_add_up(a + seq![c], b);
    let none = Seq::<char>::empty();
    assert(seq![c].drop_last() =~= none);
    assert(escaped(none) =~= none);
    if inline_special(c) {
        assert(escaped(seq![c]) =~= seq!['\\', c]);
    } else {
        assert(escaped(seq![c]) =~= seq![c]);
    }
}

/// Whether a text is ASCII digits alone.
pub open spec fn is_digits(text: Seq<char>) -> bool {
    forall|i: int| 0 <= i < text.len() ==> '0' <= #[trigger] text[i] <= '9'
}

proof fn digits_end_is(line: Seq<char>, i: int, end: int)
    requires
        0 <= i <= end <= line.len(),
        forall|k: int| i <= k < end ==> '0' <= #[trigger] line[k] <= '9',
        end < line.len() ==> !('0' <= line[end] <= '9'),
    ensures
        digits_end(line, i) == end,
    decreases end - i,
{
    if i < end {
        assert('0' <= line[i] <= '9');
        digits_end_is(line, i + 1, end);
    }
}

/// A line that begins with the mark of a block gets a backslash before it, and one that
/// begins like an item of a numbered list one behind the number. Any other line is left.
pub proof fn guarding_is_of_markers(digits: Seq<char>, rest: Seq<char>)
    requires
        is_digits(digits),
        rest.len() > 0 ==> !('0' <= rest[0] <= '9'),
    ensures
        ({
            let line = digits + rest;
            let is_number = digits.len() > 0 && rest.len() > 0 && (rest[0] == '.' || rest[0]
                == ')');
            let is_block = digits.len() == 0 && rest.len() > 0 && block_special(rest[0]);
            &&& is_number ==> guarded(line) == digits + seq!['\\'] + rest
            &&& is_block ==> guarded(line) == seq!['\\'] + rest
            &&& !is_number && !is_block ==> guarded(line) == line
        }),
{
    let line = digits + rest;
    let end = digits.len() as int;
    assert forall|k: int| 0 <= k < end implies '0' <= #[trigger] line[k] <= '9' by {
        assert(line[k] == digits[k]);
    }
    if rest.len() > 0 {
        assert(line[end] == rest[0]);
    }
    digits_end_is(line, 0, end);
    assert(line.take(end) =~= digits);
    assert(line.skip(end) =~= rest);
    if digits.len() > 0 {
        assert(line[0] == digits[0]);
        assert('0' <= digits[0] <= '9');
    } else {
        assert(line =~= rest);
    }
}

proof fn line_end_is(text: Seq<char>, from: int, at: int)
    requires
        0 <= from <= at <= text.len(),
        forall|i: int| from <= i < at ==> #[trigger] text[i] != '\n',
        at < text.len() ==> text[at] == '\n',
    ensures
        line_end(text, from) == at,
    decreases at - from,
{
    if from < at {
        assert(text[from] != '\n');
        line_end_is(text, from + 1, at);
    }
}

proof fn line_ends_are_relative(before: Seq<char>, text: Seq<char>, from: int)
    requires
        0 <= from <= text.len(),
    ensures
        line_end(before + text, before.len() + from) == before.len() + line_end(text, from),
        from <= line_end(text, from) <= text.len(),
    decreases text.len() - from,
{
    if from < text.len() {
        assert((before + text)[before.len() + from] == text[from]);
        line_ends_are_relative(before, text, from + 1);
    }
}

proof fn lines_are_relative(before: Seq<char>, text: Seq<char>, from: int)
    requires
        0 <= from <= text.len(),
    ensures
        nonempty_lines(before + text, before.len() + from) == nonempty_lines(text, from),
    decreases text.len() - from,
{
    let far = before.len();
    let end = line_end(text, from);
    line_ends_are_relative(before, text, from);
    assert((before + text).subrange(far + from, far + end) =~= text.subrange(from, end));
    if end < text.len() {
        lines_are_relative(before, text, end + 1);
    }
}

/// The lines of a text are what its newlines part; an empty one is left out.
pub proof fn lines_are_what_newlines_part(line: Seq<char>, rest: Seq<char>)
    requires
        !line.contains('\n'),
    ensures
        line.len() > 0 ==> nonempty_lines(line, 0) == seq![line],
        line.len() == 0 ==> nonempty_lines(line, 0).len() == 0,
        line.len() > 0 ==> nonempty_lines(line + seq!['\n'] + rest, 0) == seq![line]
            + nonempty_lines(rest, 0),
        line.len() == 0 ==> nonempty_lines(line + seq!['\n'] + rest, 0) == nonempty_lines(rest, 0),
{
    let before = line + seq!['\n'];
    let text = before + rest;
    let at = line.len() as int;
    assert forall|i: int| 0 <= i < at implies #[trigger] line[i] != '\n' by {
        assert(line.contains(line[i]));
    }
    assert forall|i: int| 0 <= i < at implies #[trigger] text[i] != '\n' by {
        assert(text[i] == line[i]);
    }
    assert(text[at] == '\n');
    line_end_is(text, 0, at);
    line_end_is(line, 0, at);
    assert(text.subrange(0, at) =~= line);
    assert(line.subrange(0, at) =~= line);
    assert(before.len() == at + 1);
    lines_are_relative(before, rest, 0);
    if at == 0 {
        assert(Seq::<Seq<char>>::empty() + nonempty_lines(rest, 0) =~= nonempty_lines(rest, 0));
    }
}

proof fn paragraphs_add_up(a: Seq<Seq<char>>, b: Seq<Seq<char>>)
    requires
        a.len() > 0,
        b.len() > 0,
    ensures
        paragraphs(a + b) == paragraphs(a) + seq!['\n', '\n'] + paragraphs(b),
    decreases b.len(),
{
    reveal_strlit("\n\n");
    assert("\n\n"@ =~= seq!['\n', '\n']);
    assert((a + b).drop_last() =~= a + b.drop_last());
    assert((a + b).last() == b.last());
    if b.len() == 1 {
        assert(a + b.drop_last() =~= a);
    } else {
        paragraphs_add_up(a, b.drop_last());
        assert(paragraphs(a + b) =~= paragraphs(a) + seq!['\n', '\n'] + paragraphs(b));
    }
}

/// A plain text is spelled line by line, each line a paragraph of its own with its markup
/// escaped and its start guarded, and an empty line between each two.
pub proof fn each_line_is_a_paragraph(line: Seq<char>, rest: Seq<char>)
    requires
        !line.contains('\n'),
        line.len() > 0,
    ensures
        text_as_djot(line) == guarded(escaped(line)),
        nonempty_lines(rest, 0).len() > 0 ==> text_as_djot(line + seq!['\n'] + rest) == guarded(
            escaped(line),
        ) + seq!['\n', '\n'] + text_as_djot(rest),
        nonempty_lines(rest, 0).len() == 0 ==> text_as_djot(line + seq!['\n'] + rest) == guarded(
            escaped(line),
        ),
        text_as_djot(Seq::empty()).len() == 0,
{
    lines_are_what_newlines_part(line, rest);
    lines_are_what_newlines_part(Seq::empty(), rest);
    let more = nonempty_lines(rest, 0);
    if more.len() > 0 {
        paragraphs_add_up(seq![line], more);
    } else {
        assert(seq![line] + more =~= seq![line]);
    }
}

} // verus!
