//! One line of Djot: the containers it opens at its front, and what stands behind
//! them.
use vstd::prelude::*;

use crate::chars::digit;
use crate::parser_tools::djot_plain::{ascii_letter, ascii_white, roman_lower, roman_upper};

verus! {

/// Whether a line ends at a position, or white space stands there.
pub open spec fn ends_or_white(line: Seq<char>, i: int) -> bool {
    i >= line.len() || (0 <= i && ascii_white(line[i]))
}

/// Where the run of a character that begins at `i` ends.
pub open spec fn run_end(line: Seq<char>, i: int, c: char) -> int
    decreases line.len() - i,
{
    if 0 <= i < line.len() && line[i] == c {
        run_end(line, i + 1, c)
    } else {
        i
    }
}

/// Where the white space that begins at `i` ends.
pub open spec fn white_end(line: Seq<char>, i: int) -> int
    decreases line.len() - i,
{
    if 0 <= i < line.len() && ascii_white(line[i]) {
        white_end(line, i + 1)
    } else {
        i
    }
}

/// Where the characters that begin at `i` and are no white space end.
pub open spec fn black_end(line: Seq<char>, i: int) -> int
    decreases line.len() - i,
{
    if 0 <= i < line.len() && !ascii_white(line[i]) {
        black_end(line, i + 1)
    } else {
        i
    }
}

/// Where the ASCII letters and digits that begin at `i` end.
pub open spec fn word_end(line: Seq<char>, i: int) -> int
    decreases line.len() - i,
{
    if 0 <= i < line.len() && (ascii_letter(line[i]) || digit(line[i])) {
        word_end(line, i + 1)
    } else {
        i
    }
}

/// The first closing bracket from `i` on, or the end of the line.
pub open spec fn bracket_from(line: Seq<char>, i: int) -> int
    decreases line.len() - i,
{
    if i < 0 || i >= line.len() {
        line.len() as int
    } else if line[i] == ']' {
        i
    } else {
        bracket_from(line, i + 1)
    }
}

/// Whether the characters from `i` to `j` can number a list item: up to 19 digits,
/// up to 13 digits of a Roman number, or one letter.
pub open spec fn is_number(line: Seq<char>, i: int, j: int) -> bool {
    &&& i < j
    &&& {
        ||| j - i <= 19 && forall|k: int| i <= k < j ==> digit(#[trigger] line[k])
        ||| j - i <= 13 && forall|k: int| i <= k < j ==> roman_lower(#[trigger] line[k])
        ||| j - i <= 13 && forall|k: int| i <= k < j ==> roman_upper(#[trigger] line[k])
        ||| j - i == 1 && ascii_letter(line[i])
    }
}

/// The length of the number of a list item at `i`, such as `1.`, `a)` or `(iv)`;
/// zero where there is none.
pub open spec fn number_len(line: Seq<char>, i: int) -> int {
    let start = if line[i] == '(' {
        i + 1
    } else {
        i
    };
    let end = word_end(line, start);
    if is_number(line, start, end) && end < line.len() && (line[end] == ')' || (line[end] == '.'
        && start == i)) && ends_or_white(line, end + 1) {
        end + 1 - i
    } else {
        0
    }
}

/// Whether a character is one of the three bullets.
pub open spec fn bullet(c: char) -> bool {
    c == '-' || c == '*' || c == '+'
}

/// Whether the marker of a task stands at `i`, such as `- [x]`.
pub open spec fn is_task(line: Seq<char>, i: int) -> bool {
    &&& i + 4 < line.len()
    &&& bullet(line[i])
    &&& line[i + 1] == ' '
    &&& line[i + 2] == '['
    &&& line[i + 3] == 'x' || line[i + 3] == 'X' || line[i + 3] == ' '
    &&& line[i + 4] == ']'
    &&& ends_or_white(line, i + 5)
}

/// The length of what opens a container at `i`: a blockquote, a list item, or a
/// footnote by its label; zero where nothing does.
pub open spec fn opener_len(line: Seq<char>, i: int) -> int {
    let c = line[i];
    if c == '>' || c == ':' {
        if ends_or_white(line, i + 1) {
            1
        } else {
            0
        }
    } else if bullet(c) {
        if is_task(line, i) {
            5
        } else if ends_or_white(line, i + 1) {
            1
        } else {
            0
        }
    } else if c == '[' {
        let close = bracket_from(line, i + 1);
        if i + 1 < line.len() && line[i + 1] == '^' && close + 1 < line.len() && line[close + 1]
            == ':' {
            close + 2 - i
        } else {
            0
        }
    } else {
        number_len(line, i)
    }
}

/// The front of a line.
#[verifier::ext_equal]
pub struct Front {
    /// How many containers it opens.
    pub openers: int,
    /// How many of them are blockquotes.
    pub quotes: int,
    /// How much white space it has that can belong to containers opened on an earlier
    /// line: before anything but blockquotes is opened, and apart from the one character
    /// behind each of their markers.
    pub white: int,
    /// How much of that stands before the last opener.
    pub inset: int,
    /// Where it ends: at the first character that is no white space and opens no
    /// container.
    pub end: int,
}

/// The front of a line, of which the part before `i` was read.
pub open spec fn front_from(line: Seq<char>, i: int, f: Front) -> Front
    decreases line.len() - i,
{
    if i < 0 || i >= line.len() {
        Front { end: i, ..f }
    } else if ascii_white(line[i]) {
        front_from(
            line,
            i + 1,
            Front {
                white: f.white + if f.openers == f.quotes {
                    1int
                } else {
                    0int
                },
                ..f
            },
        )
    } else if opener_len(line, i) > 0 {
        let opened = Front { openers: f.openers + 1, inset: f.white, ..f };
        if line[i] != '>' {
            front_from(line, i + opener_len(line, i), opened)
        } else if i + 1 < line.len() {
            front_from(line, i + 2, Front { quotes: f.quotes + 1, ..opened })
        } else {
            front_from(line, i + 1, Front { quotes: f.quotes + 1, ..opened })
        }
    } else {
        Front { end: i, ..f }
    }
}

/// The front of a line.
pub open spec fn front_of(line: Seq<char>) -> Front {
    front_from(line, 0, Front { openers: 0, quotes: 0, white: 0, inset: 0, end: 0 })
}

/// Whether a line has a run of three or more of a character at `i`.
pub open spec fn is_fence(line: Seq<char>, i: int, c: char) -> bool {
    run_end(line, i, c) - i >= 3
}

/// Whether there is only white space from `i` on.
pub open spec fn blank_from(line: Seq<char>, i: int) -> bool {
    white_end(line, i) >= line.len()
}

/// Whether nothing but one word stands from `i` on, if anything does, and no backtick
/// is in it. The language of a code block is such a word.
pub open spec fn is_language(line: Seq<char>, i: int) -> bool {
    let start = white_end(line, i);
    let end = black_end(line, start);
    &&& blank_from(line, end)
    &&& forall|k: int| start <= k < end ==> #[trigger] line[k] != '`'
}

/// Whether a character can be part of a class.
pub open spec fn class_char(c: char) -> bool {
    ascii_letter(c) || digit(c) || c == ':' || c == '_' || c == '-'
}

/// Whether nothing but the class of a div stands from `i` on, if anything does.
pub open spec fn is_class(line: Seq<char>, i: int) -> bool {
    let start = white_end(line, i);
    let end = black_end(line, start);
    &&& blank_from(line, end)
    &&& forall|k: int| start <= k < end ==> class_char(#[trigger] line[k])
}

/// Whether a line ends at a position, or white space stands there.
fn at_end_or_white(line: &Vec<char>, i: usize) -> (is: bool)
    ensures
        is == ends_or_white(line@, i as int),
{
    i >= line.len() || is_ascii_white(line[i])
}

/// Whether a character is ASCII white space.
pub(crate) fn is_ascii_white(c: char) -> (is: bool)
    ensures
        is == ascii_white(c),
{
    c == ' ' || c == '\t' || c == '\n' || c == '\r' || c == '\u{C}'
}

/// Whether a character is an ASCII letter.
pub(crate) fn is_ascii_letter(c: char) -> (is: bool)
    ensures
        is == ascii_letter(c),
{
    ('a' <= c && c <= 'z') || ('A' <= c && c <= 'Z')
}

/// Whether a character is a decimal digit.
pub(crate) fn is_digit(c: char) -> (is: bool)
    ensures
        is == digit(c),
{
    '0' <= c && c <= '9'
}

/// Where the run of a character that begins at `i` ends.
pub(crate) fn find_run_end(line: &Vec<char>, i: usize, c: char) -> (end: usize)
    requires
        i <= line@.len(),
    ensures
        end == run_end(line@, i as int, c),
        i <= end <= line@.len(),
{
    let mut end: usize = i;
    while end < line.len() && line[end] == c
        invariant
            i <= end <= line@.len(),
            run_end(line@, i as int, c) == run_end(line@, end as int, c),
        decreases line@.len() - end,
    {
        end += 1;
    }
    end
}

/// Where the white space that begins at `i` ends.
pub(crate) fn find_white_end(line: &Vec<char>, i: usize) -> (end: usize)
    requires
        i <= line@.len(),
    ensures
        end == white_end(line@, i as int),
        i <= end <= line@.len(),
{
    let mut end: usize = i;
    while end < line.len() && is_ascii_white(line[end])
        invariant
            i <= end <= line@.len(),
            white_end(line@, i as int) == white_end(line@, end as int),
        decreases line@.len() - end,
    {
        end += 1;
    }
    end
}

/// Where the characters that begin at `i` and are no white space end.
pub(crate) fn find_black_end(line: &Vec<char>, i: usize) -> (end: usize)
    requires
        i <= line@.len(),
    ensures
        end == black_end(line@, i as int),
        i <= end <= line@.len(),
{
    let mut end: usize = i;
    while end < line.len() && !is_ascii_white(line[end])
        invariant
            i <= end <= line@.len(),
            black_end(line@, i as int) == black_end(line@, end as int),
        decreases line@.len() - end,
    {
        end += 1;
    }
    end
}

/// Where the ASCII letters and digits that begin at `i` end.
fn find_word_end(line: &Vec<char>, i: usize) -> (end: usize)
    requires
        i <= line@.len(),
    ensures
        end == word_end(line@, i as int),
        i <= end <= line@.len(),
{
    let mut end: usize = i;
    while end < line.len() && (is_ascii_letter(line[end]) || is_digit(line[end]))
        invariant
            i <= end <= line@.len(),
            word_end(line@, i as int) == word_end(line@, end as int),
        decreases line@.len() - end,
    {
        end += 1;
    }
    end
}

/// The first closing bracket from `i` on, or the end of the line.
fn find_bracket(line: &Vec<char>, i: usize) -> (at: usize)
    requires
        i <= line@.len(),
    ensures
        at == bracket_from(line@, i as int),
        i <= at <= line@.len(),
{
    let mut at: usize = i;
    while at < line.len() && line[at] != ']'
        invariant
            i <= at <= line@.len(),
            bracket_from(line@, i as int) == bracket_from(line@, at as int),
        decreases line@.len() - at,
    {
        at += 1;
    }
    at
}

/// Whether the characters from `i` to `j` can number a list item.
fn can_number(line: &Vec<char>, i: usize, j: usize) -> (can: bool)
    requires
        i <= j <= line@.len(),
    ensures
        can == is_number(line@, i as int, j as int),
{
    if i == j {
        return false;
    }
    let mut digits: bool = true;
    let mut lower: bool = true;
    let mut upper: bool = true;
    for k in i..j
        invariant
            i <= j <= line@.len(),
            digits == forall|m: int| i <= m < k ==> digit(#[trigger] line@[m]),
            lower == forall|m: int| i <= m < k ==> roman_lower(#[trigger] line@[m]),
            upper == forall|m: int| i <= m < k ==> roman_upper(#[trigger] line@[m]),
    {
        let c = line[k];
        digits = digits && is_digit(c);
        lower = lower && (c == 'i' || c == 'v' || c == 'x' || c == 'l' || c == 'c' || c == 'd' || c
            == 'm');
        upper = upper && (c == 'I' || c == 'V' || c == 'X' || c == 'L' || c == 'C' || c == 'D' || c
            == 'M');
    }
    (j - i <= 19 && digits) || (j - i <= 13 && (lower || upper)) || (j - i == 1 && is_ascii_letter(
        line[i],
    ))
}

/// The length of the number of a list item at `i`.
fn measure_number(line: &Vec<char>, i: usize) -> (len: usize)
    requires
        i < line@.len(),
    ensures
        len == number_len(line@, i as int),
        i + len <= line@.len(),
{
    assert(i < line.len());
    let start: usize = if line[i] == '(' {
        i + 1
    } else {
        i
    };
    let end: usize = find_word_end(line, start);
    if end < line.len() && can_number(line, start, end) && (line[end] == ')' || (line[end] == '.'
        && start == i)) && at_end_or_white(line, end + 1) {
        end + 1 - i
    } else {
        0
    }
}

/// Whether a character is one of the three bullets.
pub(crate) fn is_bullet(c: char) -> (is: bool)
    ensures
        is == bullet(c),
{
    c == '-' || c == '*' || c == '+'
}

/// The length of what opens a container at `i`.
pub(crate) fn measure_opener(line: &Vec<char>, i: usize) -> (len: usize)
    requires
        i < line@.len(),
    ensures
        len == opener_len(line@, i as int),
        i + len <= line@.len(),
{
    assert(i < line.len());
    let c = line[i];
    if c == '>' || c == ':' {
        if at_end_or_white(line, i + 1) {
            1
        } else {
            0
        }
    } else if is_bullet(c) {
        if line.len() - i > 4 && line[i + 1] == ' ' && line[i + 2] == '[' && (line[i + 3] == 'x'
            || line[i + 3] == 'X' || line[i + 3] == ' ') && line[i + 4] == ']' && at_end_or_white(
            line,
            i + 5,
        ) {
            5
        } else if at_end_or_white(line, i + 1) {
            1
        } else {
            0
        }
    } else if c == '[' {
        let close: usize = find_bracket(line, i + 1);
        if i + 1 < line.len() && line[i + 1] == '^' && close < line.len() && close + 1 < line.len()
            && line[close + 1] == ':' {
            close + 2 - i
        } else {
            0
        }
    } else {
        measure_number(line, i)
    }
}

/// The front of a line.
#[derive(Clone, Copy, Debug, PartialEq, Eq, Structural)]
pub struct LineFront {
    pub openers: usize,
    pub quotes: usize,
    pub white: usize,
    pub inset: usize,
    pub end: usize,
}

impl DeepView for LineFront {
    type V = Front;

    open spec fn deep_view(&self) -> Front {
        Front {
            openers: self.openers as int,
            quotes: self.quotes as int,
            white: self.white as int,
            inset: self.inset as int,
            end: self.end as int,
        }
    }
}

/// The front of a line.
pub(crate) fn read_front(line: &Vec<char>) -> (front: LineFront)
    ensures
        front.deep_view() == front_of(line@),
        front.end <= line@.len(),
        front.openers + front.white <= front.end,
        front.inset <= front.white,
        front.quotes <= front.openers,
{
    let mut f = LineFront { openers: 0, quotes: 0, white: 0, inset: 0, end: 0 };
    let mut i: usize = 0;
    while i < line.len()
        invariant
            i <= line@.len(),
            f.end == 0,
            f.openers + f.white <= i,
            f.inset <= f.white,
            f.quotes <= f.openers,
            front_of(line@) == front_from(line@, i as int, f.deep_view()),
        decreases line@.len() - i,
    {
        if is_ascii_white(line[i]) {
            if f.openers == f.quotes {
                f.white = f.white + 1;
            }
            i += 1;
        } else {
            let len: usize = measure_opener(line, i);
            if len == 0 {
                f.end = i;
                return f;
            }
            f.openers = f.openers + 1;
            f.inset = f.white;
            if line[i] != '>' {
                i = i + len;
            } else {
                f.quotes = f.quotes + 1;
                i = i + 1;
                if i < line.len() {
                    i = i + 1;
                }
            }
        }
    }
    f.end = i;
    f
}

/// Whether there is only white space from `i` on.
pub(crate) fn is_blank_from(line: &Vec<char>, i: usize) -> (is: bool)
    requires
        i <= line@.len(),
    ensures
        is == blank_from(line@, i as int),
{
    find_white_end(line, i) == line.len()
}

/// Whether nothing but the language of a code block stands from `i` on, if anything
/// does.
pub(crate) fn has_language(line: &Vec<char>, i: usize) -> (is: bool)
    requires
        i <= line@.len(),
    ensures
        is == is_language(line@, i as int),
{
    let start: usize = find_white_end(line, i);
    let end: usize = find_black_end(line, start);
    for k in start..end
        invariant
            start <= end <= line@.len(),
            start == white_end(line@, i as int),
            end == black_end(line@, start as int),
            forall|m: int| start <= m < k ==> #[trigger] line@[m] != '`',
    {
        if line[k] == '`' {
            return false;
        }
    }
    is_blank_from(line, end)
}

/// Whether nothing but the class of a div stands from `i` on, if anything does.
pub(crate) fn has_class(line: &Vec<char>, i: usize) -> (is: bool)
    requires
        i <= line@.len(),
    ensures
        is == is_class(line@, i as int),
{
    let start: usize = find_white_end(line, i);
    let end: usize = find_black_end(line, start);
    for k in start..end
        invariant
            start <= end <= line@.len(),
            start == white_end(line@, i as int),
            end == black_end(line@, start as int),
            forall|m: int| start <= m < k ==> class_char(#[trigger] line@[m]),
    {
        let c = line[k];
        if !(is_ascii_letter(c) || is_digit(c) || c == ':' || c == '_' || c == '-') {
            return false;
        }
    }
    is_blank_from(line, end)
}

} // verus!
