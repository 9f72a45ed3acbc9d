//! Djot that is prose and nothing else: paragraphs of one line each, in which a
//! backslash stands before what would otherwise be markup.
use vstd::prelude::*;

use crate::chars::digit;
use crate::parser_tools::content_parser::{
    empty_span, or_empty_paragraph, BlockModel, ElementModel,
};
use crate::parser_tools::djot::{
    djot_after, djot_plain_text, djot_rest, djot_step, document_lines, element_lines, joined,
    span_text, spans_text, DjotAtom, DjotEventModel, DjotState, DjotTag,
};
use crate::parser_tools::djot_depth::too_deep;
use crate::parser_tools::djot_options::DjotImportOptions;

verus! {

/// Whether a character can start inline markup.
pub open spec fn inline_special(c: char) -> bool {
    ||| c == '\\'
    ||| c == '*'
    ||| c == '_'
    ||| c == '`'
    ||| c == '~'
    ||| c == '^'
    ||| c == '['
    ||| c == ']'
    ||| c == '('
    ||| c == ')'
    ||| c == '{'
    ||| c == '}'
    ||| c == '|'
    ||| c == '<'
}

/// Whether a line that begins with a character can be a block construct.
pub open spec fn block_special(c: char) -> bool {
    c == '#' || c == '>' || c == '-' || c == '+' || c == ':'
}

/// Whether a character is ASCII white space.
pub open spec fn ascii_white(c: char) -> bool {
    c == ' ' || c == '\t' || c == '\n' || c == '\r' || c == '\u{C}'
}

/// Whether a character is ASCII punctuation.
pub open spec fn ascii_punctuation(c: char) -> bool {
    ||| '!' <= c <= '/'
    ||| ':' <= c <= '@'
    ||| '[' <= c <= '`'
    ||| '{' <= c <= '~'
}

/// Whether a character is an ASCII letter.
pub open spec fn ascii_letter(c: char) -> bool {
    'a' <= c <= 'z' || 'A' <= c <= 'Z'
}

/// Whether a character is a lower-case digit of a Roman number.
pub open spec fn roman_lower(c: char) -> bool {
    c == 'i' || c == 'v' || c == 'x' || c == 'l' || c == 'c' || c == 'd' || c == 'm'
}

/// Whether a character is an upper-case digit of a Roman number.
pub open spec fn roman_upper(c: char) -> bool {
    c == 'I' || c == 'V' || c == 'X' || c == 'L' || c == 'C' || c == 'D' || c == 'M'
}

/// A line whose characters stand with a backslash (`true`) or without.
pub type MarkedLine = Seq<(char, bool)>;

/// How a marked line is written.
pub open spec fn spelled(line: MarkedLine) -> Seq<char>
    decreases line.len(),
{
    if line.len() == 0 {
        Seq::empty()
    } else {
        let rest = spelled(line.drop_last());
        if line.last().1 {
            rest.push('\\').push(line.last().0)
        } else {
            rest.push(line.last().0)
        }
    }
}

/// How marked lines are written as paragraphs, with an empty line between each
/// two.
pub open spec fn spelled_paragraphs(lines: Seq<MarkedLine>) -> Seq<char>
    decreases lines.len(),
{
    if lines.len() == 0 {
        Seq::empty()
    } else if lines.len() == 1 {
        spelled(lines[0])
    } else {
        spelled_paragraphs(lines.drop_last()) + "\n\n"@ + spelled(lines.last())
    }
}

/// The characters of a marked line.
pub open spec fn line_text(line: MarkedLine) -> Seq<char> {
    line.map_values(|mark: (char, bool)| mark.0)
}

/// Whether a mark is white space without a backslash.
pub open spec fn bare_white(mark: (char, bool)) -> bool {
    !mark.1 && ascii_white(mark.0)
}

/// A marked line without the white space it begins with.
pub open spec fn without_start(line: MarkedLine) -> MarkedLine
    decreases line.len(),
{
    if line.len() > 0 && bare_white(line[0]) {
        without_start(line.skip(1))
    } else {
        line
    }
}

/// A marked line without the white space it ends with.
pub open spec fn without_end(line: MarkedLine) -> MarkedLine
    decreases line.len(),
{
    if line.len() > 0 && bare_white(line.last()) {
        without_end(line.drop_last())
    } else {
        line
    }
}

/// A marked line without the white space around it.
pub open spec fn core_of(line: MarkedLine) -> MarkedLine {
    without_end(without_start(line))
}

/// The characters of marked lines, each without the white space around it. One that is
/// white space alone is left out.
pub open spec fn kept_texts(lines: Seq<MarkedLine>) -> Seq<Seq<char>>
    decreases lines.len(),
{
    if lines.len() == 0 {
        Seq::empty()
    } else {
        let rest = kept_texts(lines.drop_last());
        if core_of(lines.last()).len() == 0 {
            rest
        } else {
            rest.push(line_text(core_of(lines.last())))
        }
    }
}

/// Whether the first `n` characters of a line can number a list item: up to 19
/// digits, up to 13 digits of a Roman number, or a letter.
pub open spec fn numbers(line: MarkedLine, n: int) -> bool {
    ||| n <= 19 && forall|i: int| 0 <= i < n ==> digit((#[trigger] line[i]).0)
    ||| n <= 13 && forall|i: int| 0 <= i < n ==> roman_lower((#[trigger] line[i]).0)
    ||| n <= 13 && forall|i: int| 0 <= i < n ==> roman_upper((#[trigger] line[i]).0)
    ||| n == 1 && ascii_letter(line[0].0)
}

/// Whether a line begins as an item of a numbered list, with `n` characters
/// before the period.
pub open spec fn numbered(line: MarkedLine, n: int) -> bool {
    &&& 0 < n < line.len()
    &&& line[n] == ('.', false)
    &&& n + 1 == line.len() || ascii_white(line[n + 1].0)
    &&& numbers(line, n)
}

/// Whether a symbol stands from `i` to `j`: a name, which may be empty, between
/// two colons.
pub open spec fn symbol(line: MarkedLine, i: int, j: int) -> bool {
    &&& 0 <= i < j < line.len()
    &&& line[i] == (':', false)
    &&& line[j] == (':', false)
    &&& forall|k: int|
        i < k < j ==> !(#[trigger] line[k]).1 && (ascii_letter(line[k].0) || digit(line[k].0)
            || line[k].0 == '-' || line[k].0 == '+')
}

/// Whether a character of a line stands for itself there.
pub open spec fn stands(line: MarkedLine, i: int) -> bool {
    let c = line[i].0;
    if line[i].1 {
        ascii_punctuation(c)
    } else {
        &&& c != '\n' && c != '\'' && c != '"' && !inline_special(c)
        // no dash
        &&& !(c == '-' && i + 1 < line.len() && line[i + 1] == ('-', false))
        // no ellipsis
        &&& !(c == '.' && i + 2 < line.len() && line[i + 1] == ('.', false) && line[i + 2] == (
            '.',
            false,
        ))
    }
}

/// Whether a line is prose and nothing else, as a paragraph of its own: no white
/// space at its ends, no block construct at its start, no quote, dash, ellipsis
/// or symbol, and a backslash before what would otherwise be markup.
///
/// This is how jotdown tells prose from markup. Its `IdentifiedBlock::new` takes a
/// line for a paragraph that begins with none of `#>{|[-*+:` and the two fence
/// characters, and is no item of a numbered list (`maybe_ordered_list_item`); white
/// space at the ends of a paragraph is trimmed (`parse_leaf`). Within the line, its
/// `Lexer::token` gives plain text for every other character, for one behind a
/// backslash that is ASCII punctuation, and for `=`, `+` and `!` where no brace or
/// bracket follows; a single hyphen and up to two periods stay text in `parse_atom`,
/// and a colon does where `parse_symbol` finds no second one behind a name.
pub open spec fn plain_line(line: MarkedLine) -> bool {
    &&& line.len() > 0
    &&& !ascii_white(line[0].0)
    &&& !ascii_white(line.last().0)
    &&& line[0].1 || !block_special(line[0].0)
    &&& forall|n: int| !#[trigger] numbered(line, n)
    &&& forall|i: int, j: int| !#[trigger] symbol(line, i, j)
    &&& forall|i: int| 0 <= i < line.len() ==> #[trigger] stands(line, i)
}

/// Whether a line is prose and nothing else, but for white space around it, or is
/// white space alone.
pub open spec fn padded_line(line: MarkedLine) -> bool {
    &&& forall|i: int| 0 <= i < line.len() ==> (#[trigger] line[i]).0 != '\n'
    &&& core_of(line).len() == 0 || plain_line(core_of(line))
}

/// Whether lines are all prose and nothing else, but for white space around them.
pub open spec fn plain_lines(lines: Seq<MarkedLine>) -> bool {
    forall|i: int| 0 <= i < lines.len() ==> padded_line(#[trigger] lines[i])
}

/// The paragraphs that events told so far.
#[verifier::ext_equal]
pub struct Told {
    pub lines: Seq<Seq<char>>,
    /// The text so far of the paragraph that is open.
    pub open: Option<Seq<char>>,
}

/// The paragraphs after one more event, as long as there is nothing but
/// paragraphs of text.
pub open spec fn tell(told: Told, event: DjotEventModel) -> Option<Told> {
    match (event, told.open) {
        (DjotEventModel::Start(DjotTag::Document, _, _), None) => Some(told),
        (DjotEventModel::End(DjotTag::Document), None) => Some(told),
        (DjotEventModel::Atom(DjotAtom::Other), _) => Some(told),
        (DjotEventModel::Start(DjotTag::Paragraph, _, _), None) => Some(
            Told { open: Some(Seq::empty()), ..told },
        ),
        (DjotEventModel::Str(text), Some(line)) => Some(Told { open: Some(line + text), ..told }),
        (DjotEventModel::End(DjotTag::Paragraph), Some(line)) => if line.len() > 0 {
            Some(Told { lines: told.lines.push(line), open: None })
        } else {
            None
        },
        _ => None,
    }
}

/// The paragraphs that events tell, if they tell nothing else.
pub open spec fn told(events: Seq<DjotEventModel>) -> Option<Told>
    decreases events.len(),
{
    if events.len() == 0 {
        Some(Told { lines: Seq::empty(), open: None })
    } else {
        match told(events.drop_last()) {
            Some(before) => tell(before, events.last()),
            None => None,
        }
    }
}

/// Whether events tell paragraphs with these texts, and nothing else.
pub open spec fn tells(events: Seq<DjotEventModel>, lines: Seq<Seq<char>>) -> bool {
    told(events) == Some(Told { lines, open: None })
}

/// Whether events tell a source faithfully where it is prose and nothing else: each
/// line is a paragraph of its characters, without the backslashes and without the white
/// space around it; one of white space alone is none.
pub open spec fn tells_prose(source: Seq<char>, events: Seq<DjotEventModel>) -> bool {
    forall|lines: Seq<MarkedLine>|
        plain_lines(lines) && source == #[trigger] spelled_paragraphs(lines) ==> tells(
            events,
            kept_texts(lines),
        )
}

/// Whether a line is written with a backslash before each character that can start
/// inline markup, and before no other than ASCII punctuation.
pub open spec fn escaped_line(line: MarkedLine) -> bool {
    forall|i: int|
        0 <= i < line.len() ==> {
            &&& (#[trigger] line[i]).0 != '\n'
            &&& inline_special(line[i].0) ==> line[i].1
            &&& line[i].1 ==> ascii_punctuation(line[i].0)
        }
}

/// Whether lines are all written with a backslash before each character that can start
/// inline markup, and before no other than ASCII punctuation.
pub open spec fn escaped_lines(lines: Seq<MarkedLine>) -> bool {
    forall|i: int| 0 <= i < lines.len() ==> escaped_line(#[trigger] lines[i])
}

/// Whether a construct is a block of text.
pub open spec fn is_leaf(tag: DjotTag) -> bool {
    tag is Paragraph || tag is Heading || tag is DescriptionTerm
}

/// Whether a construct is made of blocks, and no table, footnote or list of tasks.
pub open spec fn is_holder(tag: DjotTag) -> bool {
    ||| tag is Document
    ||| tag is Section
    ||| tag is Div
    ||| tag is Blockquote
    ||| tag is List
    ||| tag is ListItem
    ||| tag is DescriptionList
    ||| tag is DescriptionDetails
}

/// Whether an atom stands for a quote, a dash or an ellipsis.
pub open spec fn is_smart(atom: DjotAtom) -> bool {
    ||| atom is LeftSingleQuote
    ||| atom is RightSingleQuote
    ||| atom is LeftDoubleQuote
    ||| atom is RightDoubleQuote
    ||| atom is Ellipsis
    ||| atom is EnDash
    ||| atom is EmDash
}

/// How much text events told so far.
#[verifier::ext_equal]
pub struct Tally {
    /// The block of text that is open.
    pub open: Option<DjotTag>,
    /// How many characters there are, with one more for each paragraph and each heading.
    pub size: int,
}

/// The tally after one more event, as long as there is nothing but blocks of text with
/// characters in them, within one another or not.
pub open spec fn add_up(tally: Tally, event: DjotEventModel) -> Option<Tally> {
    match (event, tally.open) {
        (DjotEventModel::Atom(DjotAtom::Other), _) => Some(tally),
        (DjotEventModel::Start(tag, _, _), None) => if is_holder(tag) {
            Some(tally)
        } else if tag is DescriptionTerm {
            Some(Tally { open: Some(tag), ..tally })
        } else if is_leaf(tag) {
            Some(Tally { open: Some(tag), size: tally.size + 1 })
        } else {
            None
        },
        (DjotEventModel::End(tag), None) => if is_holder(tag) {
            Some(tally)
        } else {
            None
        },
        (DjotEventModel::End(tag), Some(leaf)) => if tag == leaf {
            Some(Tally { open: None, ..tally })
        } else {
            None
        },
        (DjotEventModel::Str(text), Some(_)) => Some(
            Tally { size: tally.size + text.len(), ..tally },
        ),
        (DjotEventModel::Atom(atom), Some(_)) => if is_smart(atom) {
            Some(Tally { size: tally.size + 1, ..tally })
        } else {
            None
        },
        _ => None,
    }
}

/// How much text events tell, if they tell nothing else.
pub open spec fn added_up(events: Seq<DjotEventModel>) -> Option<Tally>
    decreases events.len(),
{
    if events.len() == 0 {
        Some(Tally { open: None, size: 0 })
    } else {
        match added_up(events.drop_last()) {
            Some(before) => add_up(before, events.last()),
            None => None,
        }
    }
}

/// Whether events tell no more than a source has where it is made of one-line paragraphs
/// in which each character that can start inline markup has a backslash: at most one
/// block per line, of no more characters than the line has without the white space around
/// it.
pub open spec fn tells_no_more(source: Seq<char>, events: Seq<DjotEventModel>) -> bool {
    forall|lines: Seq<MarkedLine>|
        escaped_lines(lines) && source == #[trigger] spelled_paragraphs(lines) ==> {
            &&& added_up(events) is Some
            &&& added_up(events)->0.open is None
            &&& added_up(events)->0.size <= joined(kept_texts(lines)).len() + 1
        }
}

/// Whether the reader stands where events have told these paragraphs.
pub open spec fn stands_at(s: DjotState, told: Told) -> bool {
    &&& s.skip == 0
    &&& s.image is None
    &&& !s.table.in_cell
    &&& s.lists.len() == 0
    &&& s.elements.len() == told.lines.len()
    &&& document_lines(s.elements) == told.lines
    &&& match told.open {
        Some(line) => spans_text(s.spans) == line,
        None => s.spans.len() == 0,
    }
}

/// The reader keeps up with the paragraphs that events tell.
proof fn reader_keeps_up(events: Seq<DjotEventModel>, opts: DjotImportOptions)
    requires
        told(events) is Some,
    ensures
        stands_at(djot_after(events, opts), told(events)->0),
    decreases events.len(),
{
    if events.len() == 0 {
        assert(document_lines(Seq::empty()) =~= Seq::<Seq<char>>::empty());
    } else {
        reader_keeps_up(events.drop_last(), opts);
        let s = djot_after(events.drop_last(), opts);
        let before = told(events.drop_last())->0;
        let next = djot_step(s, events.last(), opts);
        match (events.last(), before.open) {
            (DjotEventModel::Start(DjotTag::Paragraph, _, _), None) => {
                assert(spans_text(next.spans) =~= Seq::<char>::empty());
            },
            (DjotEventModel::Str(text), Some(line)) => {
                assert(next.spans.drop_last() =~= s.spans);
                assert(span_text(next.spans.last()) == text);
            },
            (DjotEventModel::End(DjotTag::Paragraph), Some(line)) => {
                assert(s.spans.len() > 0);
                assert(next.elements.drop_last() =~= s.elements);
                assert(element_lines(next.elements.last()) =~= seq![line]);
                assert(document_lines(next.elements) =~= before.lines.push(line));
            },
            _ => {},
        }
    }
}

/// A document without elements reads as nothing.
proof fn blank_document_is_empty()
    ensures
        joined(document_lines(or_empty_paragraph(Seq::empty()))) == Seq::<char>::empty(),
{
    let blank = or_empty_paragraph(Seq::empty());
    assert(blank.drop_last() =~= Seq::empty());
    let spans = seq![empty_span()];
    assert(spans.drop_last() =~= Seq::empty());
    assert(span_text(spans.last()) =~= Seq::<char>::empty());
    assert(spans_text(spans.drop_last()) =~= Seq::<char>::empty());
    assert(spans_text(spans) =~= Seq::<char>::empty());
    assert(document_lines(blank.drop_last()) =~= Seq::<Seq<char>>::empty());
    assert(document_lines(blank) =~= seq![Seq::<char>::empty()]);
}

/// A document whose events tell paragraphs and nothing else reads as their
/// texts, with a newline between each two.
pub proof fn told_paragraphs_read_as_lines(
    source: Seq<char>,
    events: Seq<DjotEventModel>,
    lines: Seq<Seq<char>>,
    opts: DjotImportOptions,
)
    requires
        tells(events, lines),
        !too_deep(source),
    ensures
        djot_plain_text(source, events, opts) == joined(lines),
{
    reader_keeps_up(events, opts);
    let elements = djot_rest(djot_after(events, opts));
    assert(document_lines(elements) == lines);
    if lines.len() == 0 {
        blank_document_is_empty();
        assert(elements =~= Seq::empty());
        assert(joined(lines) =~= Seq::<char>::empty());
    }
}

/// How long lines are with a newline behind each.
spec fn lines_size(lines: Seq<Seq<char>>) -> int
    decreases lines.len(),
{
    if lines.len() == 0 {
        0
    } else {
        lines_size(lines.drop_last()) + lines.last().len() + 1
    }
}

proof fn joined_size(lines: Seq<Seq<char>>)
    ensures
        lines.len() > 0 ==> joined(lines).len() + 1 == lines_size(lines),
    decreases lines.len(),
{
    if lines.len() > 1 {
        joined_size(lines.drop_last());
    } else if lines.len() == 1 {
        assert(lines_size(lines.drop_last()) == 0);
    }
}

/// Whether the reader holds no more text than a tally.
spec fn holds_no_more(s: DjotState, tally: Tally) -> bool {
    &&& s.skip >= 0
    &&& s.image is None
    &&& !s.table.in_cell
    &&& tally.open is None || s.skip > 0 ==> s.spans.len() == 0
    &&& tally.open matches Some(leaf) ==> is_leaf(leaf) && (s.skip == 0 ==> !(leaf is DescriptionTerm))
    &&& lines_size(document_lines(s.elements)) + spans_text(s.spans).len() + (if s.skip == 0
        && tally.open is Some {
        1int
    } else {
        0int
    }) <= tally.size
}

proof fn closing_adds_a_line(elements: Seq<ElementModel>, block: BlockModel)
    ensures
        lines_size(document_lines(elements.push(ElementModel::Block(block)))) == lines_size(
            document_lines(elements),
        ) + spans_text(block.spans).len() + 1,
{
    let all = elements.push(ElementModel::Block(block));
    assert(all.drop_last() =~= elements);
    let line = spans_text(block.spans);
    assert(document_lines(all) =~= document_lines(elements).push(line));
    assert(document_lines(elements).push(line).drop_last() =~= document_lines(elements));
}

/// The reader holds no more text than events tell.
proof fn reader_adds_nothing(events: Seq<DjotEventModel>, opts: DjotImportOptions)
    requires
        added_up(events) is Some,
    ensures
        holds_no_more(djot_after(events, opts), added_up(events)->0),
    decreases events.len(),
{
    if events.len() == 0 {
        assert(document_lines(Seq::empty()) =~= Seq::<Seq<char>>::empty());
    } else {
        reader_adds_nothing(events.drop_last(), opts);
        let s = djot_after(events.drop_last(), opts);
        let before = added_up(events.drop_last())->0;
        let next = djot_step(s, events.last(), opts);
        if s.skip == 0 {
            match (events.last(), before.open) {
                (DjotEventModel::Str(text), Some(_)) => {
                    assert(next.spans.drop_last() =~= s.spans);
                    assert(span_text(next.spans.last()) == text);
                },
                (DjotEventModel::Atom(atom), Some(_)) => {
                    if is_smart(atom) {
                        assert(next.spans.drop_last() =~= s.spans);
                        assert(span_text(next.spans.last()).len() == 1);
                    }
                },
                (DjotEventModel::End(tag), Some(_)) => {
                    if next.elements.len() != s.elements.len() {
                        let block = next.elements.last()->Block_0;
                        assert(next.elements == s.elements.push(ElementModel::Block(block)));
                        assert(block.spans == s.spans);
                        closing_adds_a_line(s.elements, block);
                    }
                },
                _ => {},
            }
        }
    }
}

/// A document whose events tell blocks of text and nothing else reads as no more text
/// than they tell, with a newline between each two blocks.
pub proof fn told_text_is_not_longer(
    source: Seq<char>,
    events: Seq<DjotEventModel>,
    opts: DjotImportOptions,
)
    requires
        added_up(events) matches Some(tally) && tally.open is None,
        !too_deep(source),
    ensures
        djot_plain_text(source, events, opts).len() == 0 || djot_plain_text(
            source,
            events,
            opts,
        ).len() < added_up(events)->0.size,
{
    reader_adds_nothing(events, opts);
    let elements = djot_rest(djot_after(events, opts));
    let lines = document_lines(elements);
    if elements.len() == 0 {
        blank_document_is_empty();
    } else if lines.len() == 0 {
        assert(joined(lines).len() == 0);
    } else {
        joined_size(lines);
    }
}

} // verus!
