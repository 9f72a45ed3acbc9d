//! How far the Djot parser can descend into a text.
//!
//! The parser calls itself in two places, and has no limit of its own in either.
//!
//! * Its block parser does so once per container, whether the container was opened
//!   on a line of its own or behind another on the same line. Around a container that
//!   a line opens there can be: those that the same line opens before it; list items
//!   and footnotes opened earlier, each of which takes at least one character of white
//!   space from the front of the line; and divs opened earlier. A blockquote opened
//!   earlier needs its `>` on the line, so it is among the first, and it takes the
//!   character behind that. Nothing opened earlier stands within what the line opens,
//!   so no white space counts behind a list item or a footnote that it opens.
//! * Its event iterator does so once per line of a paragraph, for as long as something
//!   that can open inline markup has not been closed.
//!
//! Both are bounded here from above, line by line. The stack is a limit of the machine,
//! and no part of what a document means: what goes too far is not handed to the parser,
//! and [`goes_too_far`] tells a caller beforehand.
use vstd::prelude::*;

use crate::chars::{digit, part};
use crate::parser_tools::djot_depth::{find_line_end, larger, line_end};
use crate::parser_tools::djot_line::{
    blank_from, bullet, ends_or_white, find_run_end, find_white_end, front_of, has_class,
    has_language, is_ascii_letter, is_ascii_white, is_blank_from, is_bullet, is_class, is_digit,
    is_fence, is_language, measure_opener, opener_len, read_front, run_end, white_end, LineFront,
};
use crate::parser_tools::djot_plain::{ascii_letter, ascii_white};
use crate::text::to_chars;

verus! {

/// The most containers that may stand around a block. The parser takes some four
/// kilobytes of stack for each in a build without optimization.
pub const MAX_CONTAINERS: usize = 384;

/// The most lines of a paragraph that may follow what can open inline markup. The
/// parser takes some three kilobytes of stack for each in a build without
/// optimization.
pub const MAX_PENDING_LINES: usize = 512;

/// The lines of a text from `from` on, without their newlines.
pub open spec fn source_lines(text: Seq<char>, from: int) -> Seq<Seq<char>>
    decreases text.len() - from,
{
    if from < 0 || from >= text.len() {
        Seq::empty()
    } else {
        let end = line_end(text, from);
        if from <= end < text.len() {
            seq![text.subrange(from, end)] + source_lines(text, end + 1)
        } else {
            seq![text.subrange(from, text.len() as int)]
        }
    }
}

// ─── Containers ──────────────────────────────────────────────────────

/// A div that may be open.
#[verifier::ext_equal]
pub struct Div {
    /// How many blockquotes it stands in.
    pub quotes: int,
    /// The number of colons it was opened with.
    pub colons: int,
    /// The fence of the code block that is open in it, if one is: its character and
    /// how many there are.
    pub code: Option<(char, int)>,
}

/// Whether a line of colons alone, behind some blockquote markers, closes a div, or a
/// container around it.
pub open spec fn closes(div: Div, quotes: int, colons: int) -> bool {
    ||| div.quotes > quotes
    ||| div.quotes == quotes && div.code is None && div.colons <= colons
}

/// The divs that such a line may leave open.
pub open spec fn left_open(divs: Seq<Div>, quotes: int, colons: int) -> Seq<Div>
    decreases divs.len(),
{
    if divs.len() == 0 {
        divs
    } else {
        let rest = left_open(divs.drop_last(), quotes, colons);
        if closes(divs.last(), quotes, colons) {
            rest
        } else {
            rest.push(divs.last())
        }
    }
}

/// The divs that may be open behind a blank line. It ends the blockquotes whose marker
/// it lacks.
pub open spec fn left_by_blank(divs: Seq<Div>, quotes: int) -> Seq<Div> {
    left_open(divs, quotes, 0)
}

/// A div behind the fence of a code block.
pub open spec fn behind_code(div: Div, quotes: int, c: char, n: int, bare: bool) -> Div {
    if div.quotes != quotes {
        div
    } else {
        Div {
            code: match div.code {
                None => Some((c, n)),
                Some((open, len)) => if open == c && n >= len && bare {
                    None
                } else {
                    div.code
                },
            },
            ..div
        }
    }
}

/// Divs behind the fence of a code block.
pub open spec fn all_behind_code(
    divs: Seq<Div>,
    quotes: int,
    c: char,
    n: int,
    bare: bool,
) -> Seq<Div> {
    divs.map_values(|div: Div| behind_code(div, quotes, c, n, bare))
}

/// The character of the code fence at `i`, if a code block may begin or end there.
pub open spec fn code_fence(line: Seq<char>, i: int) -> Option<char> {
    if is_fence(line, i, '`') && is_language(line, run_end(line, i, '`')) {
        Some('`')
    } else if is_fence(line, i, '~') && is_language(line, run_end(line, i, '~')) {
        Some('~')
    } else {
        None
    }
}

/// The divs that may be open behind a line.
pub open spec fn divs_behind(divs: Seq<Div>, line: Seq<char>) -> Seq<Div> {
    let f = front_of(line);
    // Nothing but blockquote markers and white space.
    let plain = f.openers == f.quotes;
    let colons = run_end(line, f.end, ':') - f.end;
    if f.end >= line.len() {
        if plain {
            left_by_blank(divs, f.quotes)
        } else {
            divs
        }
    } else if colons >= 3 {
        // A line of colons alone may as well open a div.
        let kept = if plain && blank_from(line, f.end + colons) {
            left_open(divs, f.quotes, colons)
        } else {
            divs
        };
        kept.push(Div { quotes: f.quotes, colons, code: None })
    } else {
        match code_fence(line, f.end) {
            Some(c) => if plain {
                all_behind_code(
                    divs,
                    f.quotes,
                    c,
                    run_end(line, f.end, c) - f.end,
                    blank_from(line, run_end(line, f.end, c)),
                )
            } else {
                divs
            },
            None => divs,
        }
    }
}

/// The most containers that can stand around what a line opens, with that itself,
/// some divs being open before the line; zero where the line opens nothing.
pub open spec fn reach(divs: Seq<Div>, line: Seq<char>) -> int {
    let f = front_of(line);
    if f.end < line.len() && is_fence(line, f.end, ':') {
        f.openers + f.white + divs_behind(divs, line).len()
    } else if f.openers > 0 {
        f.openers + f.inset + divs.len()
    } else {
        0
    }
}

// ─── Paragraphs ──────────────────────────────────────────────────────

/// What the lines since the last blank one are, as far as that is sure.
pub enum Mode {
    /// A block begins with the next line.
    Fresh,
    /// They may all be one paragraph.
    Prose,
    /// The first line of each item of a list is known. The last item has this indent.
    Items(int),
    /// All begin with a blockquote marker.
    Quoted,
    /// All are rows of a table.
    Rows,
    /// A code block is open, with this fence.
    Code(char, int),
}

/// Whether the character at `i` may open inline markup. An apostrophe behind a letter
/// does not.
pub open spec fn may_open(line: Seq<char>, i: int) -> bool {
    let c = line[i];
    ||| c == '*'
    ||| c == '_'
    ||| c == '^'
    ||| c == '~'
    ||| c == '"'
    ||| c == '['
    ||| c == '{'
    ||| c == '`'
    ||| c == '\'' && (i == 0 || !ascii_letter(line[i - 1]))
}

/// Whether something in a line may open inline markup.
pub open spec fn opens_inline(line: Seq<char>) -> bool {
    exists|i: int| 0 <= i < line.len() && #[trigger] may_open(line, i)
}

/// Where the white space at the end of a line begins, looking back from `i`.
pub open spec fn last_black(line: Seq<char>, i: int) -> int
    decreases i,
{
    if 0 < i <= line.len() && ascii_white(line[i - 1]) {
        last_black(line, i - 1)
    } else {
        i
    }
}

/// Whether a line has the shape of a row of a table.
pub open spec fn is_row(line: Seq<char>) -> bool {
    let start = white_end(line, 0);
    let end = last_black(line, line.len() as int);
    &&& start + 2 <= end
    &&& line[start] == '|'
    &&& line[end - 1] == '|'
    &&& line[end - 2] != '\\'
}

/// Whether a line begins with a blockquote marker.
pub open spec fn is_quote(line: Seq<char>) -> bool {
    let start = white_end(line, 0);
    start < line.len() && line[start] == '>' && ends_or_white(line, start + 1)
}

/// Whether a line is made of hyphens, asterisks and white space.
pub open spec fn is_rule(line: Seq<char>) -> bool {
    forall|i: int|
        0 <= i < line.len() ==> ascii_white(#[trigger] line[i]) || line[i] == '-' || line[i] == '*'
}

/// Where the digits that begin at `i` end.
pub open spec fn digits_from(line: Seq<char>, i: int) -> int
    decreases line.len() - i,
{
    if 0 <= i < line.len() && digit(line[i]) {
        digits_from(line, i + 1)
    } else {
        i
    }
}

/// Whether a bullet or a decimal number begins a list item at `start`.
pub open spec fn is_item_at(line: Seq<char>, start: int) -> bool {
    let end = digits_from(line, start);
    ||| start + 1 < line.len() && bullet(line[start]) && line[start + 1] == ' '
    ||| start < end <= start + 19 && end < line.len() && (line[end] == '.' || line[end] == ')')
        && ends_or_white(line, end + 1)
}

/// Whether a line surely begins a list item where it stands at the start of a block.
pub open spec fn is_item(line: Seq<char>) -> bool {
    !is_rule(line) && is_item_at(line, white_end(line, 0))
}

/// Whether a line with this first character may be something else than the
/// continuation of a paragraph.
pub open spec fn may_interrupt(line: Seq<char>) -> bool {
    let start = white_end(line, 0);
    let c = line[start];
    ||| opener_len(line, start) > 0
    ||| bullet(c)
    ||| c == '#'
    ||| c == '>'
    ||| c == '{'
    ||| c == '|'
    ||| c == '['
    ||| c == '`'
    ||| c == ':'
    ||| c == '~'
}

/// What begins with a line that begins a block. `bare` says that neither a div nor a
/// code block is open.
pub open spec fn begun(line: Seq<char>, bare: bool) -> Mode {
    let start = white_end(line, 0);
    if bare && start == 0 && code_fence(line, 0) is Some {
        let c = code_fence(line, 0)->0;
        Mode::Code(c, run_end(line, 0, c))
    } else if is_row(line) {
        Mode::Rows
    } else if is_quote(line) {
        Mode::Quoted
    } else if is_item(line) {
        Mode::Items(start)
    } else if is_fence(line, start, ':') && is_class(line, run_end(line, start, ':')) {
        Mode::Fresh
    } else {
        Mode::Prose
    }
}

/// The mode behind a line, and whether the line surely continues no paragraph.
pub open spec fn moved_on(mode: Mode, line: Seq<char>, bare: bool) -> (Mode, bool) {
    let start = white_end(line, 0);
    match mode {
        Mode::Code(c, n) => {
            let end = run_end(line, start, c);
            if end - start >= n && blank_from(line, end) {
                (Mode::Fresh, true)
            } else {
                (mode, true)
            }
        },
        _ => if start >= line.len() {
            (Mode::Fresh, true)
        } else {
            match mode {
                Mode::Fresh => (begun(line, bare), true),
                Mode::Items(indent) => if is_item(line) && start <= indent {
                    (Mode::Items(start), true)
                } else if may_interrupt(line) {
                    (Mode::Prose, false)
                } else {
                    (mode, false)
                },
                Mode::Quoted => if !is_quote(line) {
                    (Mode::Prose, false)
                } else {
                    (mode, blank_from(line, start + 1))
                },
                Mode::Rows => if is_row(line) {
                    (mode, true)
                } else {
                    (Mode::Prose, true)
                },
                _ => (Mode::Prose, false),
            }
        },
    }
}

/// How many lines of a paragraph, up to this one, may wait for the end of inline
/// markup.
pub open spec fn waiting(pending: int, apart: bool, mode: Mode, line: Seq<char>) -> int {
    if mode is Code || mode is Fresh {
        0
    } else if apart {
        if opens_inline(line) {
            1
        } else {
            0
        }
    } else if pending > 0 || opens_inline(line) {
        pending + 1
    } else {
        0
    }
}

// ─── A text ──────────────────────────────────────────────────────────

/// What is known of a text behind some lines.
#[verifier::ext_equal]
pub struct Descent {
    pub divs: Seq<Div>,
    /// The most containers around anything so far.
    pub deepest: int,
    pub mode: Mode,
    /// Whether a code fence was met that did not surely begin or end a code block, so
    /// that one may be open.
    pub loose: bool,
    pub pending: int,
    /// The most lines that waited for the end of inline markup so far.
    pub longest: int,
}

/// The descent before the first line.
pub open spec fn descent_start() -> Descent {
    Descent { divs: Seq::empty(), deepest: 0, mode: Mode::Fresh, loose: false, pending: 0, longest: 0 }
}

/// The descent behind one more line.
pub open spec fn descend(d: Descent, line: Seq<char>) -> Descent {
    let (mode, apart) = moved_on(d.mode, line, d.divs.len() == 0 && !d.loose);
    let pending = waiting(d.pending, apart, mode, line);
    Descent {
        divs: divs_behind(d.divs, line),
        deepest: larger(d.deepest, reach(d.divs, line)),
        mode,
        loose: d.loose || !(d.mode is Code) && !(mode is Code) && code_fence(
            line,
            front_of(line).end,
        ) is Some,
        pending,
        longest: larger(d.longest, pending),
    }
}

/// The descent behind lines.
pub open spec fn descent(lines: Seq<Seq<char>>) -> Descent
    decreases lines.len(),
{
    if lines.len() == 0 {
        descent_start()
    } else {
        descend(descent(lines.drop_last()), lines.last())
    }
}

/// Whether a descent needs more stack than there may be.
pub open spec fn is_too_far(d: Descent) -> bool {
    d.deepest > MAX_CONTAINERS || d.longest > MAX_PENDING_LINES
}

/// Whether the parser may need more stack for a text than there may be.
pub open spec fn too_far(text: Seq<char>) -> bool {
    is_too_far(descent(source_lines(text, 0)))
}

/// A descent that went too far does not come back.
pub proof fn too_far_stays(lines: Seq<Seq<char>>, more: Seq<Seq<char>>)
    requires
        is_too_far(descent(lines)),
    ensures
        is_too_far(descent(lines + more)),
    decreases more.len(),
{
    if more.len() == 0 {
        assert(lines + more =~= lines);
    } else {
        too_far_stays(lines, more.drop_last());
        assert((lines + more).drop_last() =~= lines + more.drop_last());
        assert((lines + more).last() == more.last());
    }
}

/// A div that may be open.
#[derive(Clone, Copy, Debug)]
struct OpenDiv {
    quotes: usize,
    colons: usize,
    code: Option<(char, usize)>,
}

impl DeepView for OpenDiv {
    type V = Div;

    closed spec fn deep_view(&self) -> Div {
        Div {
            quotes: self.quotes as int,
            colons: self.colons as int,
            code: match self.code {
                Some((c, n)) => Some((c, n as int)),
                None => None,
            },
        }
    }
}

/// The divs that a line of colons may leave open.
fn keep_open(divs: &Vec<OpenDiv>, quotes: usize, colons: usize) -> (kept: Vec<OpenDiv>)
    ensures
        kept.deep_view() == left_open(divs.deep_view(), quotes as int, colons as int),
        kept.len() <= divs.len(),
{
    let ghost all = divs.deep_view();
    let mut kept: Vec<OpenDiv> = Vec::new();
    for i in 0..divs.len()
        invariant
            all == divs.deep_view(),
            kept.len() <= i,
            kept.deep_view() == left_open(all.take(i as int), quotes as int, colons as int),
    {
        let div = divs[i];
        proof {
            assert(all.take(i + 1).drop_last() =~= all.take(i as int));
            assert(all.take(i + 1).last() == div.deep_view());
        }
        let closed: bool = div.quotes > quotes || (div.quotes == quotes && div.code.is_none()
            && div.colons <= colons);
        if !closed {
            kept.push(div);
        }
    }
    assert(all.take(all.len() as int) =~= all);
    kept
}

/// Divs behind the fence of a code block.
fn pass_code(divs: &Vec<OpenDiv>, quotes: usize, c: char, n: usize, bare: bool) -> (passed: Vec<
    OpenDiv,
>)
    ensures
        passed.deep_view() == all_behind_code(divs.deep_view(), quotes as int, c, n as int, bare),
        passed.len() == divs.len(),
{
    let ghost all = divs.deep_view();
    let mut passed: Vec<OpenDiv> = Vec::new();
    for i in 0..divs.len()
        invariant
            all == divs.deep_view(),
            passed.len() == i,
            forall|k: int|
                0 <= k < i ==> (#[trigger] passed@[k]).deep_view() == behind_code(
                    all[k],
                    quotes as int,
                    c,
                    n as int,
                    bare,
                ),
    {
        let mut div = divs[i];
        assert(all[i as int] == div.deep_view());
        if div.quotes == quotes {
            div.code = match div.code {
                None => Some((c, n)),
                Some((open, len)) => if open == c && n >= len && bare {
                    None
                } else {
                    Some((open, len))
                },
            };
        }
        passed.push(div);
    }
    assert(passed.deep_view() =~= all_behind_code(all, quotes as int, c, n as int, bare));
    passed
}

/// The character of the code fence at `i`.
fn find_code_fence(line: &Vec<char>, i: usize) -> (fence: Option<char>)
    requires
        i <= line@.len(),
    ensures
        fence == code_fence(line@, i as int),
{
    let ticks: usize = find_run_end(line, i, '`');
    if ticks - i >= 3 && has_language(line, ticks) {
        return Some('`');
    }
    let tildes: usize = find_run_end(line, i, '~');
    if tildes - i >= 3 && has_language(line, tildes) {
        return Some('~');
    }
    None
}

/// The divs that may be open behind a line.
fn pass_divs(divs: &Vec<OpenDiv>, line: &Vec<char>, f: &LineFront) -> (passed: Vec<OpenDiv>)
    requires
        f.deep_view() == front_of(line@),
        f.end <= line@.len(),
    ensures
        passed.deep_view() == divs_behind(divs.deep_view(), line@),
        !(f.end < line@.len() && is_fence(line@, f.end as int, ':')) ==> passed.len() <= divs.len(),
{
    let plain: bool = f.openers == f.quotes;
    if f.end >= line.len() {
        if plain {
            return keep_open(divs, f.quotes, 0);
        }
        return copy_divs(divs);
    }
    let colons: usize = find_run_end(line, f.end, ':') - f.end;
    if colons >= 3 {
        let mut kept = if plain && is_blank_from(line, f.end + colons) {
            keep_open(divs, f.quotes, colons)
        } else {
            copy_divs(divs)
        };
        kept.push(OpenDiv { quotes: f.quotes, colons, code: None });
        return kept;
    }
    match find_code_fence(line, f.end) {
        Some(c) => if plain {
            let end: usize = find_run_end(line, f.end, c);
            pass_code(divs, f.quotes, c, end - f.end, is_blank_from(line, end))
        } else {
            copy_divs(divs)
        },
        None => copy_divs(divs),
    }
}

/// The same divs.
fn copy_divs(divs: &Vec<OpenDiv>) -> (copy: Vec<OpenDiv>)
    ensures
        copy.deep_view() == divs.deep_view(),
        copy.len() == divs.len(),
{
    let copy = crate::entities::copy_list(divs);
    assert(copy.deep_view() =~= divs.deep_view());
    copy
}

/// What the lines since the last blank one are.
#[derive(Clone, Copy, Debug)]
enum LineMode {
    Fresh,
    Prose,
    Items(usize),
    Quoted,
    Rows,
    Code(char, usize),
}

impl DeepView for LineMode {
    type V = Mode;

    closed spec fn deep_view(&self) -> Mode {
        match *self {
            LineMode::Fresh => Mode::Fresh,
            LineMode::Prose => Mode::Prose,
            LineMode::Items(indent) => Mode::Items(indent as int),
            LineMode::Quoted => Mode::Quoted,
            LineMode::Rows => Mode::Rows,
            LineMode::Code(c, n) => Mode::Code(c, n as int),
        }
    }
}

/// Whether something in a line may open inline markup.
fn has_inline_opener(line: &Vec<char>) -> (has: bool)
    ensures
        has == opens_inline(line@),
{
    for i in 0..line.len()
        invariant
            forall|k: int| 0 <= k < i ==> !#[trigger] may_open(line@, k),
    {
        let c = line[i];
        if c == '*' || c == '_' || c == '^' || c == '~' || c == '"' || c == '[' || c == '{' || c
            == '`' || (c == '\'' && (i == 0 || !is_ascii_letter(line[i - 1]))) {
            assert(may_open(line@, i as int));
            return true;
        }
    }
    false
}

/// Whether a line has the shape of a row of a table.
fn has_row_shape(line: &Vec<char>) -> (has: bool)
    ensures
        has == is_row(line@),
{
    let start: usize = find_white_end(line, 0);
    let mut end: usize = line.len();
    while 0 < end && is_ascii_white(line[end - 1])
        invariant
            end <= line@.len(),
            last_black(line@, line@.len() as int) == last_black(line@, end as int),
        decreases end,
    {
        end -= 1;
    }
    start <= end && end - start >= 2 && line[start] == '|' && line[end - 1] == '|' && line[end - 2]
        != '\\'
}

/// Whether a line begins with a blockquote marker, its first character that is no
/// white space being at `start`.
fn is_quoted(line: &Vec<char>, start: usize) -> (is: bool)
    requires
        start == white_end(line@, 0),
    ensures
        is == is_quote(line@),
{
    start < line.len() && line[start] == '>' && (start + 1 == line.len() || is_ascii_white(
        line[start + 1],
    ))
}

/// Whether a line surely begins a list item where it stands at the start of a block.
fn begins_item(line: &Vec<char>, start: usize) -> (is: bool)
    requires
        start == white_end(line@, 0),
        start < line@.len(),
    ensures
        is == is_item(line@),
{
    let mut rule: bool = true;
    for i in 0..line.len()
        invariant
            rule == forall|k: int|
                0 <= k < i ==> ascii_white(#[trigger] line@[k]) || line@[k] == '-' || line@[k]
                    == '*',
    {
        let c = line[i];
        rule = rule && (is_ascii_white(c) || c == '-' || c == '*');
    }
    if rule {
        return false;
    }
    assert(start < line.len());
    if start + 1 < line.len() && is_bullet(line[start]) && line[start + 1] == ' ' {
        return true;
    }
    let mut end: usize = start;
    while end < line.len() && is_digit(line[end])
        invariant
            start <= end <= line@.len(),
            digits_from(line@, start as int) == digits_from(line@, end as int),
        decreases line@.len() - end,
    {
        end += 1;
    }
    start < end && end - start <= 19 && end < line.len() && (line[end] == '.' || line[end] == ')')
        && (end + 1 == line.len() || is_ascii_white(line[end + 1]))
}

/// Whether a line may be something else than the continuation of a paragraph.
fn can_interrupt(line: &Vec<char>, start: usize) -> (can: bool)
    requires
        start == white_end(line@, 0),
        start < line@.len(),
    ensures
        can == may_interrupt(line@),
{
    let c = line[start];
    measure_opener(line, start) > 0 || is_bullet(c) || c == '#' || c == '>' || c == '{' || c == '|'
        || c == '[' || c == '`' || c == ':' || c == '~'
}

/// What begins with a line that begins a block.
fn begin(line: &Vec<char>, start: usize, bare: bool) -> (mode: LineMode)
    requires
        start == white_end(line@, 0),
        start < line@.len(),
    ensures
        mode.deep_view() == begun(line@, bare),
{
    if bare && start == 0 {
        if let Some(c) = find_code_fence(line, 0) {
            return LineMode::Code(c, find_run_end(line, 0, c));
        }
    }
    if has_row_shape(line) {
        return LineMode::Rows;
    }
    if is_quoted(line, start) {
        return LineMode::Quoted;
    }
    if begins_item(line, start) {
        return LineMode::Items(start);
    }
    let colons: usize = find_run_end(line, start, ':');
    if colons - start >= 3 && has_class(line, colons) {
        LineMode::Fresh
    } else {
        LineMode::Prose
    }
}

/// The mode behind a line, and whether the line surely continues no paragraph.
fn move_on(mode: LineMode, line: &Vec<char>, bare: bool) -> (next: (LineMode, bool))
    ensures
        (next.0.deep_view(), next.1) == moved_on(mode.deep_view(), line@, bare),
{
    let start: usize = find_white_end(line, 0);
    if let LineMode::Code(c, n) = mode {
        let end: usize = find_run_end(line, start, c);
        return if end - start >= n && is_blank_from(line, end) {
            (LineMode::Fresh, true)
        } else {
            (mode, true)
        };
    }
    if start >= line.len() {
        return (LineMode::Fresh, true);
    }
    match mode {
        LineMode::Fresh => (begin(line, start, bare), true),
        LineMode::Items(indent) => if start <= indent && begins_item(line, start) {
            (LineMode::Items(start), true)
        } else if can_interrupt(line, start) {
            (LineMode::Prose, false)
        } else {
            (mode, false)
        },
        LineMode::Quoted => if !is_quoted(line, start) {
            (LineMode::Prose, false)
        } else {
            (mode, is_blank_from(line, start + 1))
        },
        LineMode::Rows => if has_row_shape(line) {
            (mode, true)
        } else {
            (LineMode::Prose, true)
        },
        _ => (LineMode::Prose, false),
    }
}

/// What is known of a text behind some lines, none of which goes too far.
struct Progress {
    divs: Vec<OpenDiv>,
    mode: LineMode,
    loose: bool,
    pending: usize,
}

impl Progress {
    /// Whether a descent is where this stands, and has not gone too far.
    spec fn at(&self, d: Descent) -> bool {
        &&& self.divs.deep_view() == d.divs
        &&& self.mode.deep_view() == d.mode
        &&& self.loose == d.loose
        &&& self.pending == d.pending
        &&& self.divs.len() <= MAX_CONTAINERS
        &&& self.pending <= MAX_PENDING_LINES
        &&& !is_too_far(d)
    }

    /// Goes behind one more line. Returns whether that goes too far.
    fn pass(&mut self, line: &Vec<char>, Ghost(d): Ghost<Descent>) -> (far: bool)
        requires
            old(self).at(d),
        ensures
            far == is_too_far(descend(d, line@)),
            !far ==> final(self).at(descend(d, line@)),
    {
        let f = read_front(line);
        let bare: bool = self.divs.len() == 0 && !self.loose;
        let open: usize = self.divs.len();
        let divs = pass_divs(&self.divs, line, &f);
        let fenced: bool = f.end < line.len() && find_run_end(line, f.end, ':') - f.end >= 3;
        // No more than the line is long.
        let inner: usize = if fenced {
            f.openers + f.white
        } else if f.openers > 0 {
            f.openers + f.inset
        } else {
            0
        };
        let outer: usize = if fenced {
            divs.len()
        } else if f.openers > 0 {
            open
        } else {
            0
        };
        assert(divs.deep_view().len() == divs.len());
        assert(inner + outer == reach(d.divs, line@));
        let next = move_on(self.mode, line, bare);
        let opens: bool = has_inline_opener(line);
        let was_code: bool = match self.mode {
            LineMode::Code(_, _) => true,
            _ => false,
        };
        let is_code: bool = match next.0 {
            LineMode::Code(_, _) => true,
            _ => false,
        };
        let is_fresh: bool = match next.0 {
            LineMode::Fresh => true,
            _ => false,
        };
        let idle: bool = is_code || is_fresh;
        let loose: bool = self.loose || (!was_code && !is_code && find_code_fence(
            line,
            f.end,
        ).is_some());
        let pending: usize = if idle {
            0
        } else if next.1 {
            if opens {
                1
            } else {
                0
            }
        } else if self.pending > 0 || opens {
            self.pending + 1
        } else {
            0
        };
        assert(pending == descend(d, line@).pending);
        if outer > MAX_CONTAINERS || inner > MAX_CONTAINERS - outer || pending
            > MAX_PENDING_LINES {
            return true;
        }
        self.divs = divs;
        self.mode = next.0;
        self.loose = loose;
        self.pending = pending;
        false
    }
}

/// Whether the parser may need more stack for a text than there may be.
pub fn goes_too_far(text: &str) -> (far: bool)
    ensures
        far == too_far(text@),
{
    let whole = to_chars(text);
    let ghost all = text@;
    let ghost lines = source_lines(all, 0);
    let ghost mut done: Seq<Seq<char>> = Seq::empty();
    let mut progress = Progress {
        divs: Vec::new(),
        mode: LineMode::Fresh,
        loose: false,
        pending: 0,
    };
    let mut from: usize = 0;
    proof {
        assert(progress.divs.deep_view() =~= Seq::<Div>::empty());
        assert(done + source_lines(all, 0) =~= lines);
    }
    while from < whole.len()
        invariant
            whole@ == all,
            all == text@,
            lines == source_lines(all, 0),
            from <= all.len(),
            done + source_lines(all, from as int) == lines,
            progress.at(descent(done)),
        decreases all.len() - from,
    {
        let end: usize = find_line_end(&whole, from);
        let line = part(whole.as_slice(), from, end);
        let ghost before = done;
        let ghost rest = if end < all.len() {
            source_lines(all, end + 1)
        } else {
            Seq::empty()
        };
        proof {
            done = before.push(line@);
            assert(done.drop_last() =~= before);
            assert(source_lines(all, from as int) =~= seq![line@] + rest);
            assert(done + rest =~= before + (seq![line@] + rest));
        }
        if progress.pass(&line, Ghost(descent(before))) {
            proof {
                too_far_stays(done, rest);
            }
            return true;
        }
        from = if end < whole.len() {
            end + 1
        } else {
            end
        };
    }
    assert(done + source_lines(all, from as int) =~= done);
    false
}

} // verus!
