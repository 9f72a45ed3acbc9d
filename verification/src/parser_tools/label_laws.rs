//! Which footnote labels a Markdown text references and defines, stated over its characters
//! and events.
use vstd::prelude::*;

use crate::chars::white_space;
use crate::parser_tools::content_parser::ElementModel;
use crate::parser_tools::markdown::{
    defined_labels, find_char, find_opening, is_label, referenced_labels, with_definitions,
    without_definitions, MarkdownEventModel, MarkdownTag, MARKDOWN_OPTIONS,
};

verus! {

/// Whether no `[^` begins in a text, whatever follows it.
pub open spec fn opens_nothing(text: Seq<char>) -> bool {
    forall|i: int|
        0 <= i < text.len() && #[trigger] text[i] == '[' ==> i + 1 < text.len() && text[i + 1]
            != '^'
}

proof fn opening_is(text: Seq<char>, from: int, at: int)
    requires
        0 <= from <= at,
        at + 1 < text.len(),
        text[at] == '[',
        text[at + 1] == '^',
        forall|i: int|
            from <= i < at ==> !(#[trigger] text[i] == '[' && text[i + 1] == '^'),
    ensures
        find_opening(text, from) == Some(at),
    decreases at - from,
{
    if from < at {
        assert(!(text[from] == '[' && text[from + 1] == '^'));
        opening_is(text, from + 1, at);
    }
}

proof fn opening_is_missing(text: Seq<char>, from: int)
    requires
        0 <= from,
        forall|i: int|
            from <= i < text.len() - 1 ==> !(#[trigger] text[i] == '[' && text[i + 1] == '^'),
    ensures
        find_opening(text, from) is None,
    decreases text.len() - from,
{
    if from + 1 < text.len() {
        assert(!(text[from] == '[' && text[from + 1] == '^'));
        opening_is_missing(text, from + 1);
    }
}

proof fn char_is(text: Seq<char>, from: int, c: char, at: int)
    requires
        0 <= from <= at <= text.len(),
        forall|i: int| from <= i < at ==> #[trigger] text[i] != c,
        at < text.len() ==> text[at] == c,
    ensures
        at < text.len() ==> find_char(text, from, c) == Some(at),
        at == text.len() ==> find_char(text, from, c) is None,
    decreases at - from,
{
    if from < at {
        assert(text[from] != c);
        char_is(text, from + 1, c, at);
    }
}

proof fn opening_is_relative(before: Seq<char>, text: Seq<char>, from: int)
    requires
        0 <= from,
    ensures
        find_opening(before + text, before.len() + from) == match find_opening(text, from) {
            Some(at) => Some(before.len() + at),
            None => None,
        },
        find_opening(text, from) matches Some(at) ==> from <= at && at + 1 < text.len(),
    decreases text.len() - from,
{
    let all = before + text;
    let far = before.len();
    if from + 1 < text.len() {
        assert(all[far + from] == text[from]);
        assert(all[far + from + 1] == text[from + 1]);
        opening_is_relative(before, text, from + 1);
    }
}

proof fn char_is_relative(before: Seq<char>, text: Seq<char>, from: int, c: char)
    requires
        0 <= from,
    ensures
        find_char(before + text, before.len() + from, c) == match find_char(text, from, c) {
            Some(at) => Some(before.len() + at),
            None => None,
        },
        find_char(text, from, c) matches Some(at) ==> from <= at < text.len(),
    decreases text.len() - from,
{
    if from < text.len() {
        assert((before + text)[before.len() + from] == text[from]);
        char_is_relative(before, text, from + 1, c);
    }
}

proof fn labels_are_relative(before: Seq<char>, text: Seq<char>, from: int)
    requires
        0 <= from,
    ensures
        referenced_labels(before + text, before.len() + from) == referenced_labels(text, from),
    decreases text.len() - from,
{
    let all = before + text;
    let far = before.len();
    opening_is_relative(before, text, from);
    if let Some(open) = find_opening(text, from) {
        char_is_relative(before, text, open + 2, ']');
        if let Some(close) = find_char(text, open + 2, ']') {
            assert(all.subrange(far + open + 2, far + close) =~= text.subrange(open + 2, close));
            if close + 1 < text.len() {
                assert(all[far + close + 1] == text[close + 1]);
            }
            labels_are_relative(before, text, close + 1);
        }
    }
}

/// A text references a label where it holds it between `[^` and `]`, unless a colon
/// follows, which defines it. What holds white space, or nothing, is no label. Behind a
/// bracket the text is read on.
pub proof fn references_are_found(before: Seq<char>, label: Seq<char>, rest: Seq<char>)
    requires
        opens_nothing(before),
        !label.contains(']'),
    ensures
        ({
            let text = before + seq!['[', '^'] + label + seq![']'] + rest;
            let blank = exists|i: int|
                0 <= i < label.len() && white_space(#[trigger] label[i]);
            let defines = rest.len() > 0 && rest[0] == ':';
            &&& label.len() > 0 && !blank && !defines ==> referenced_labels(text, 0) == seq![label]
                + referenced_labels(rest, 0)
            &&& label.len() == 0 || blank || defines ==> referenced_labels(text, 0)
                == referenced_labels(rest, 0)
        }),
{
    let head = before + seq!['[', '^'] + label + seq![']'];
    let text = head + rest;
    let open = before.len() as int;
    let close = open + 2 + label.len();
    assert(text[open] == '[' && text[open + 1] == '^');
    assert(text[close] == ']');
    assert forall|i: int| 0 <= i < open implies !(#[trigger] text[i] == '[' && text[i + 1]
        == '^') by {
        assert(text[i] == before[i]);
        if before[i] == '[' {
            assert(text[i + 1] == before[i + 1]);
        }
    }
    opening_is(text, 0, open);
    assert forall|i: int| open + 2 <= i < close implies #[trigger] text[i] != ']' by {
        assert(text[i] == label[i - open - 2]);
        assert(label.contains(label[i - open - 2]));
    }
    char_is(text, open + 2, ']', close);
    assert(text.subrange(open + 2, close) =~= label);
    if rest.len() > 0 {
        assert(text[close + 1] == rest[0]);
    }
    assert(head.len() == close + 1);
    labels_are_relative(head, rest, 0);
    let tail = referenced_labels(rest, 0);
    let defines = close + 1 < text.len() && text[close + 1] == ':';
    assert(referenced_labels(text, 0) == if is_label(label) && !defines {
        seq![label] + tail
    } else {
        tail
    });
}

/// A text without a `[^`, and one without a `]` behind the first, references nothing.
pub proof fn nothing_else_references(before: Seq<char>, tail: Seq<char>)
    requires
        opens_nothing(before),
        !tail.contains(']'),
    ensures
        referenced_labels(before, 0).len() == 0,
        referenced_labels(before + seq!['[', '^'] + tail, 0).len() == 0,
{
    assert forall|i: int| 0 <= i < before.len() - 1 implies !(#[trigger] before[i] == '['
        && before[i + 1] == '^') by {}
    opening_is_missing(before, 0);
    let text = before + seq!['[', '^'] + tail;
    let open = before.len() as int;
    assert(text[open] == '[' && text[open + 1] == '^');
    assert forall|i: int| 0 <= i < open implies !(#[trigger] text[i] == '[' && text[i + 1]
        == '^') by {
        assert(text[i] == before[i]);
        if before[i] == '[' {
            assert(text[i + 1] == before[i + 1]);
        }
    }
    opening_is(text, 0, open);
    assert forall|i: int| open + 2 <= i < text.len() implies #[trigger] text[i] != ']' by {
        assert(text[i] == tail[i - open - 2]);
        assert(tail.contains(tail[i - open - 2]));
    }
    char_is(text, open + 2, ']', text.len() as int);
}

/// A document defines the labels at which a footnote definition begins, and no others.
pub proof fn definitions_are_found(events: Seq<MarkdownEventModel>, label: Seq<char>)
    ensures
        defined_labels(events).contains(label) <==> events.contains(
            MarkdownEventModel::Start(MarkdownTag::FootnoteDefinition, label),
        ),
    decreases events.len(),
{
    let event = MarkdownEventModel::Start(MarkdownTag::FootnoteDefinition, label);
    if events.len() > 0 {
        let less = events.drop_last();
        definitions_are_found(less, label);
        let rest = defined_labels(less);
        let all = defined_labels(events);
        assert(events =~= less.push(events.last()));
        assert(events.contains(event) <==> less.contains(event) || events.last() == event) by {
            if less.contains(event) {
                let i = choose|i: int| 0 <= i < less.len() && less[i] == event;
                assert(events[i] == event);
            }
            assert(events[events.len() - 1] == events.last());
        }
        if let MarkdownEventModel::Start(MarkdownTag::FootnoteDefinition, found) = events.last() {
            assert(all == rest.push(found));
            assert(all.contains(label) <==> rest.contains(label) || found == label) by {
                if rest.contains(label) {
                    let i = choose|i: int| 0 <= i < rest.len() && rest[i] == label;
                    assert(all[i] == label);
                }
                assert(all[all.len() - 1] == found);
            }
        }
    }
}

/// A definition that is added for a label stands behind the text, in a paragraph of its
/// own, and is empty.
pub proof fn definitions_are_added_behind(
    text: Seq<char>,
    labels: Seq<Seq<char>>,
    label: Seq<char>,
)
    ensures
        with_definitions(text, Seq::empty()) == text,
        with_definitions(text, labels.push(label)) == with_definitions(text, labels) + seq![
            '\n',
            '\n',
            '[',
            '^',
        ] + label + seq![']', ':', '\n'],
{
    reveal_strlit("\n\n[^");
    reveal_strlit("]:\n");
    assert("\n\n[^"@ =~= seq!['\n', '\n', '[', '^']);
    assert("]:\n"@ =~= seq![']', ':', '\n']);
    assert(labels.push(label).drop_last() =~= labels);
}

/// Leaving out the definitions of some labels leaves everything else, in order.
pub proof fn all_but_these_definitions_stay(
    a: Seq<ElementModel>,
    b: Seq<ElementModel>,
    element: ElementModel,
    labels: Seq<Seq<char>>,
)
    ensures
        without_definitions(a + b, labels) == without_definitions(a, labels)
            + without_definitions(b, labels),
        (element is FootnoteDefinition && labels.contains(element->label))
            ==> without_definitions(seq![element], labels).len() == 0,
        !(element is FootnoteDefinition && labels.contains(element->label))
            ==> without_definitions(seq![element], labels) == seq![element],
    decreases b.len(),
{
    let none = Seq::<ElementModel>::empty();
    assert(seq![element].drop_last() =~= none);
    assert(without_definitions(none, labels) =~= none);
    assert(none.push(element) =~= seq![element]);
    if b.len() == 0 {
        assert(a + b =~= a);
        assert(without_definitions(a, labels) + without_definitions(b, labels)
            =~= without_definitions(a, labels));
    } else {
        all_but_these_definitions_stay(a, b.drop_last(), element, labels);
        assert((a + b).drop_last() =~= a + b.drop_last());
        assert((a + b).last() == b.last());
        assert(without_definitions(a + b, labels) =~= without_definitions(a, labels)
            + without_definitions(b, labels));
    }
}

/// Tables, footnotes, strikethrough and task lists are read, each by the parser's bit for
/// it, and no other extension.
pub proof fn four_extensions_are_read()
    ensures
        MARKDOWN_OPTIONS == 2 + 4 + 8 + 16,
{
}

} // verus!
