//! What [`crate::parser_tools::djot_depth::nesting_depth`] makes of repeated markers.
use vstd::prelude::*;

use crate::chars::{trim, trim_end, trim_start, white_space};
use crate::parser_tools::djot_depth::{
    all_colons, depth_from, depth_line, depth_of, larger, line_at, line_end, quote_markers,
    too_deep, Depth,
};
use crate::text::{byte_len, byte_len_push};
use crate::text_laws::{is_blank, start_is_trimmed};

verus! {

/// A text over and over.
pub open spec fn repeated(text: Seq<char>, n: nat) -> Seq<char>
    decreases n,
{
    if n == 0 {
        Seq::empty()
    } else {
        text + repeated(text, (n - 1) as nat)
    }
}

pub(crate) proof fn line_end_behind(head: Seq<char>, text: Seq<char>, i: int)
    requires
        0 <= i <= text.len(),
    ensures
        line_end(head + text, head.len() + i) == head.len() + line_end(text, i),
        i <= line_end(text, i) <= text.len(),
    decreases text.len() - i,
{
    if i < text.len() && text[i] != '\n' {
        line_end_behind(head, text, i + 1);
    }
}

/// What is read of a text does not depend on what stands before it.
proof fn depth_behind(head: Seq<char>, text: Seq<char>, i: int, d: Depth)
    requires
        0 <= i <= text.len(),
    ensures
        depth_from(head + text, head.len() + i, d) == depth_from(text, i, d),
    decreases text.len() - i,
{
    let all = head + text;
    if i < text.len() {
        line_end_behind(head, text, i);
        let end = line_end(text, i);
        assert(all.subrange(head.len() + i, head.len() + end) =~= text.subrange(i, end));
        if end < text.len() && end > i {
            assert(all.subrange(head.len() + i, head.len() + end - 1) =~= text.subrange(
                i,
                end - 1,
            ));
        }
        assert(line_at(all, head.len() + i) == line_at(text, i));
        if end < text.len() {
            depth_behind(head, text, end + 1, depth_line(d, line_at(text, i)));
        }
    }
}

proof fn line_end_within(line: Seq<char>, rest: Seq<char>, i: int)
    requires
        0 <= i <= line.len(),
        forall|k: int| 0 <= k < line.len() ==> #[trigger] line[k] != '\n',
    ensures
        line_end(line + seq!['\n'] + rest, i) == line.len(),
    decreases line.len() - i,
{
    if i < line.len() {
        line_end_within(line, rest, i + 1);
    }
}

/// A text is read line by line.
pub proof fn first_line_first(line: Seq<char>, rest: Seq<char>, d: Depth)
    requires
        forall|k: int| 0 <= k < line.len() ==> #[trigger] line[k] != '\n' && line[k] != '\r',
    ensures
        depth_from(line + seq!['\n'] + rest, 0, d) == depth_from(rest, 0, depth_line(d, line)),
{
    let head = line + seq!['\n'];
    let all = head + rest;
    line_end_within(line, rest, 0);
    assert(all.subrange(0, line.len() as int) =~= line);
    depth_behind(head, rest, 0, depth_line(d, line));
}

/// A text without a newline is one line.
pub(crate) proof fn one_line(line: Seq<char>, i: int)
    requires
        0 <= i <= line.len(),
        forall|k: int| 0 <= k < line.len() ==> #[trigger] line[k] != '\n',
    ensures
        line_end(line, i) == line.len(),
    decreases line.len() - i,
{
    if i < line.len() {
        one_line(line, i + 1);
    }
}

proof fn quotes_from(line: Seq<char>, n: int, i: int)
    requires
        0 <= i <= n <= line.len(),
        forall|k: int| 0 <= k < n ==> #[trigger] line[k] == '>',
    ensures
        quote_markers(line, i) == n - i + quote_markers(line, n),
    decreases n - i,
{
    if i < n {
        quotes_from(line, n, i + 1);
    }
}

proof fn quotes_are_no_debt(line: Seq<char>, i: int)
    ensures
        quote_markers(line, i) >= 0,
    decreases line.len() - i,
{
    if 0 <= i < line.len() {
        quotes_are_no_debt(line, i + 1);
    }
}

/// A line that begins with some blockquote markers nests at least as deep as they are
/// many, in the divs that are open.
pub proof fn markers_nest(line: Seq<char>, n: int, d: Depth)
    requires
        0 < n <= line.len(),
        forall|k: int| 0 <= k < n ==> #[trigger] line[k] == '>',
    ensures
        depth_line(d, line).deepest >= n + d.open_divs,
        depth_line(d, line).open_divs == d.open_divs,
{
    assert(line[0] == '>');
    assert(trim_start(line) == line);
    quotes_from(line, n, 0);
    quotes_are_no_debt(line, n);
}

/// No line takes back how deep an earlier one nests.
pub proof fn depth_only_grows(text: Seq<char>, from: int, d: Depth)
    ensures
        depth_from(text, from, d).deepest >= d.deepest,
    decreases text.len() - from,
{
    if 0 <= from < text.len() {
        let end = line_end(text, from);
        if from <= end < text.len() {
            depth_only_grows(text, end + 1, depth_line(d, line_at(text, from)));
        }
    }
}

/// A run of blockquote markers nests as deep as it is long.
pub proof fn quotes_nest_by_number(n: nat)
    ensures
        depth_of(Seq::new(n, |i: int| '>') + seq!['x']) == n,
{
    let line = Seq::new(n, |i: int| '>') + seq!['x'];
    one_line(line, 0);
    assert(line.subrange(0, line.len() as int) =~= line);
    assert(trim_start(line) == line);
    quotes_from(line, n as int, 0);
    assert(line[n as int] == 'x');
}

proof fn spaces_trimmed(n: nat)
    ensures
        trim_start(Seq::new(n, |i: int| ' ') + seq!['x']) == seq!['x'],
        byte_len(Seq::new(n, |i: int| ' ') + seq!['x']) == n + byte_len(seq!['x']),
    decreases n,
{
    let line = Seq::new(n, |i: int| ' ') + seq!['x'];
    if n == 0 {
        assert(line =~= seq!['x']);
    } else {
        let rest = Seq::new((n - 1) as nat, |i: int| ' ') + seq!['x'];
        spaces_trimmed((n - 1) as nat);
        assert(line.skip(1) =~= rest);
        assert(line =~= seq![' '] + rest);
        crate::text::encode_utf8_concat(seq![' '], rest);
        assert(Seq::<char>::empty().push(' ') =~= seq![' ']);
        byte_len_push(Seq::<char>::empty(), ' ');
        assert(byte_len(seq![' ']) == 1);
    }
}

/// Indentation nests by one level per two columns.
pub proof fn indentation_nests_by_two(n: nat)
    ensures
        depth_of(Seq::new(n, |i: int| ' ') + seq!['x']) == n / 2,
{
    let line = Seq::new(n, |i: int| ' ') + seq!['x'];
    one_line(line, 0);
    assert(line.subrange(0, line.len() as int) =~= line);
    spaces_trimmed(n);
    let body = seq!['x'];
    assert(quote_markers(body, 0) == 0);
}

/// A line that opens a div.
pub proof fn opening_line(line: Seq<char>, at: int, d: Depth)
    requires
        3 < line.len(),
        line[0] == ':',
        line[1] == ':',
        line[2] == ':',
        3 <= at < line.len(),
        line[at] != ':',
        !white_space(line[at]),
    ensures
        depth_line(d, line) == (Depth {
            open_divs: d.open_divs + 1,
            deepest: larger(d.deepest, d.open_divs + 1),
        }),
{
    assert(trim_start(line) == line);
    let rest = line.skip(3);
    trimming_keeps(rest, at - 3);
}

/// What is no white space stays where white space is trimmed.
proof fn trimming_keeps(text: Seq<char>, at: int)
    requires
        0 <= at < text.len(),
        !white_space(text[at]),
    ensures
        trim(text).contains(text[at]),
{
    trimming_start_keeps(text, at);
    let body = trim_start(text);
    let i = choose|i: int| 0 <= i < body.len() && body[i] == text[at];
    trimming_end_keeps(body, i);
}

proof fn trimming_start_keeps(text: Seq<char>, at: int)
    requires
        0 <= at < text.len(),
        !white_space(text[at]),
    ensures
        trim_start(text).contains(text[at]),
    decreases text.len(),
{
    if white_space(text[0]) {
        assert(text.skip(1)[at - 1] == text[at]);
        trimming_start_keeps(text.skip(1), at - 1);
    } else {
        assert(text[at] == trim_start(text)[at]);
    }
}

proof fn trimming_end_keeps(text: Seq<char>, at: int)
    requires
        0 <= at < text.len(),
        !white_space(text[at]),
    ensures
        trim_end(text).contains(text[at]),
    decreases text.len(),
{
    if white_space(text.last()) {
        assert(text.drop_last()[at] == text[at]);
        trimming_end_keeps(text.drop_last(), at);
    } else {
        assert(text[at] == trim_end(text)[at]);
    }
}

/// A line of colons alone closes a div.
pub proof fn closing_line(line: Seq<char>, d: Depth)
    requires
        3 <= line.len(),
        all_colons(line),
    ensures
        depth_line(d, line) == (Depth {
            open_divs: if d.open_divs > 0 {
                d.open_divs - 1
            } else {
                0
            },
            ..d
        }),
{
    assert(line[0] == ':' && line[1] == ':' && line[2] == ':');
    assert(trim_start(line) == line);
    let rest = line.skip(3);
    assert(trim_start(rest) == rest) by {
        if rest.len() > 0 {
            assert(rest[0] == line[3]);
        }
    }
    assert(trim_end(rest) == rest) by {
        if rest.len() > 0 {
            assert(rest.last() == line[line.len() - 1]);
        }
    }
}

/// Divs that nothing closes nest by number.
pub proof fn open_divs_nest_by_number(n: nat)
    ensures
        depth_of(repeated("::: a\n"@, n)) == n,
{
    open_divs_nest_from(n, Depth { open_divs: 0, deepest: 0 });
}

proof fn open_divs_nest_from(n: nat, d: Depth)
    requires
        d.open_divs == d.deepest,
    ensures
        depth_from(repeated("::: a\n"@, n), 0, d) == (Depth {
            open_divs: d.open_divs + n,
            deepest: d.deepest + n,
        }),
    decreases n,
{
    reveal_strlit("::: a\n");
    reveal_strlit("::: a");
    if n > 0 {
        let line = "::: a"@;
        let rest = repeated("::: a\n"@, (n - 1) as nat);
        assert("::: a\n"@ + rest =~= line + seq!['\n'] + rest);
        first_line_first(line, rest, d);
        opening_line(line, 4, d);
        open_divs_nest_from((n - 1) as nat, depth_line(d, line));
    }
}

/// The line of a body: it nests in the divs that are open, and no deeper.
proof fn body_line(d: Depth)
    requires
        d.deepest >= d.open_divs,
    ensures
        depth_line(d, "body"@) == d,
{
    reveal_strlit("body");
    let line = "body"@;
    assert(trim_start(line) == line);
    assert(quote_markers(line, 0) == 0);
}

/// Divs that are closed do not add up: the next stands beside them.
pub proof fn siblings_do_not_add_up(n: nat)
    ensures
        depth_of(repeated("::: note\nbody\n:::\n"@, n)) == if n > 0 {
            1int
        } else {
            0int
        },
{
    siblings_from(n, Depth { open_divs: 0, deepest: 0 });
}

proof fn siblings_from(n: nat, d: Depth)
    requires
        d.open_divs == 0,
        0 <= d.deepest <= 1,
    ensures
        depth_from(repeated("::: note\nbody\n:::\n"@, n), 0, d) == (Depth {
            open_divs: 0,
            deepest: if n > 0 {
                1
            } else {
                d.deepest
            },
        }),
    decreases n,
{
    reveal_strlit("::: note\nbody\n:::\n");
    reveal_strlit("::: note");
    reveal_strlit("body");
    reveal_strlit(":::");
    if n > 0 {
        let rest = repeated("::: note\nbody\n:::\n"@, (n - 1) as nat);
        let third = ":::"@ + seq!['\n'] + rest;
        let second = "body"@ + seq!['\n'] + third;
        let first = "::: note"@ + seq!['\n'] + second;
        assert("::: note\nbody\n:::\n"@ + rest =~= first);
        let a = depth_line(d, "::: note"@);
        opening_line("::: note"@, 4, d);
        first_line_first("::: note"@, second, d);
        body_line(a);
        first_line_first("body"@, third, a);
        closing_line(":::"@, a);
        first_line_first(":::"@, rest, a);
        siblings_from((n - 1) as nat, depth_line(a, ":::"@));
    }
}

/// A longer fence closes its div as well: divs in one another, closed one after the
/// other, do not add up either.
pub proof fn a_longer_fence_closes(n: nat)
    ensures
        depth_of(repeated(":::: outer\n::: inner\nbody\n:::\n::::\n"@, n)) == if n > 0 {
            2int
        } else {
            0int
        },
{
    longer_fences_from(n, Depth { open_divs: 0, deepest: 0 });
}

proof fn longer_fences_from(n: nat, d: Depth)
    requires
        d.open_divs == 0,
        0 <= d.deepest <= 2,
    ensures
        depth_from(repeated(":::: outer\n::: inner\nbody\n:::\n::::\n"@, n), 0, d) == (Depth {
            open_divs: 0,
            deepest: if n > 0 {
                2
            } else {
                d.deepest
            },
        }),
    decreases n,
{
    reveal_strlit(":::: outer\n::: inner\nbody\n:::\n::::\n");
    reveal_strlit(":::: outer");
    reveal_strlit("::: inner");
    reveal_strlit("body");
    reveal_strlit(":::");
    reveal_strlit("::::");
    if n > 0 {
        let rest = repeated(":::: outer\n::: inner\nbody\n:::\n::::\n"@, (n - 1) as nat);
        let fifth = "::::"@ + seq!['\n'] + rest;
        let fourth = ":::"@ + seq!['\n'] + fifth;
        let third = "body"@ + seq!['\n'] + fourth;
        let second = "::: inner"@ + seq!['\n'] + third;
        let first = ":::: outer"@ + seq!['\n'] + second;
        assert(":::: outer\n::: inner\nbody\n:::\n::::\n"@ + rest =~= first);
        let a = depth_line(d, ":::: outer"@);
        opening_line(":::: outer"@, 5, d);
        first_line_first(":::: outer"@, second, d);
        let b = depth_line(a, "::: inner"@);
        opening_line("::: inner"@, 4, a);
        first_line_first("::: inner"@, third, a);
        body_line(b);
        first_line_first("body"@, fourth, b);
        let c = depth_line(b, ":::"@);
        closing_line(":::"@, b);
        first_line_first(":::"@, fifth, b);
        closing_line("::::"@, c);
        first_line_first("::::"@, rest, c);
        longer_fences_from((n - 1) as nat, depth_line(c, "::::"@));
    }
}

/// How many blockquote markers a text holds.
pub open spec fn markers_in(text: Seq<char>) -> int
    decreases text.len(),
{
    if text.len() == 0 {
        0
    } else if text.last() == '>' {
        markers_in(text.drop_last()) + 1
    } else {
        markers_in(text.drop_last())
    }
}

proof fn markers_are_counted(line: Seq<char>, n: int)
    requires
        0 <= n <= line.len(),
        forall|i: int|
            0 <= i < n ==> #[trigger] line[i] == '>' || line[i] == ' ' || line[i] == '\t',
    ensures
        quote_markers(line, 0) == markers_in(line.take(n)) + quote_markers(line, n),
    decreases n,
{
    if n > 0 {
        markers_are_counted(line, n - 1);
        assert(line.take(n).drop_last() =~= line.take(n - 1));
        assert(line.take(n).last() == line[n - 1]);
    } else {
        assert(line.take(0) =~= Seq::<char>::empty());
    }
}

/// A line that is no fence of a div nests by all that it holds together: its blockquote
/// markers, with or without space between them, the divs that are open, and one level for
/// each two bytes of indentation. It opens and closes no div.
pub proof fn a_line_nests_by_all_it_holds(
    indent: Seq<char>,
    markers: Seq<char>,
    rest: Seq<char>,
    d: Depth,
)
    requires
        is_blank(indent),
        forall|i: int|
            0 <= i < markers.len() ==> #[trigger] markers[i] == '>' || markers[i] == ' '
                || markers[i] == '\t',
        markers.len() > 0 ==> markers[0] == '>',
        rest.len() > 0 ==> rest[0] != '>' && rest[0] != ' ' && rest[0] != '\t',
        markers.len() == 0 && rest.len() > 0 ==> !white_space(rest[0]) && rest[0] != ':',
    ensures
        ({
            let new = depth_line(d, indent + markers + rest);
            let nests = markers_in(markers) + d.open_divs + byte_len(indent) / 2;
            &&& new.open_divs == d.open_divs
            &&& nests >= d.deepest ==> new.deepest == nests
            &&& nests < d.deepest ==> new.deepest == d.deepest
        }),
{
    let body = markers + rest;
    let line = indent + markers + rest;
    assert(line =~= indent + body);
    let n = markers.len() as int;
    if body.len() > 0 {
        assert(body[0] == if n > 0 {
            markers[0]
        } else {
            rest[0]
        });
    }
    start_is_trimmed(indent, body);
    crate::text::encode_utf8_concat(indent, body);
    assert forall|i: int| 0 <= i < n implies #[trigger] body[i] == '>' || body[i] == ' ' || body[i]
        == '\t' by {
        assert(body[i] == markers[i]);
    }
    markers_are_counted(body, n);
    assert(body.take(n) =~= markers);
    if rest.len() > 0 {
        assert(body[n] == rest[0]);
    }
    assert(quote_markers(body, n) == 0);
}

/// A text that nests no deeper than 96 levels is not too deep, and any other is.
pub proof fn depth_is_bounded(text: Seq<char>)
    ensures
        too_deep(text) <==> depth_of(text) > 96,
{
}

} // verus!
