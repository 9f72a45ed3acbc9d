//! Pure word/character counting over `&str`: no document, no store, no threads.
//!
//! The *policy* (which counting method) is a parameter, so a host app can count a
//! manuscript of thousands of scenes without importing each one into a document.
//!
//! Language is **not** a parameter: UAX #29 word segmentation is not
//! locale-tailored, and the CJK rule ([`CountMethod::CjkHybrid`]) is
//! script-detected per character.
use unicode_segmentation::UnicodeSegmentation;
use vstd::prelude::*;

use crate::chars::{is_white_space, split_words, white_space, words};
use crate::models::group_deep_view;
use crate::parser_tools::djot::{
    djot_event_stream, djot_plain_text, djot_to_plain_text, parser_bears,
};
use crate::parser_tools::djot_depth::too_deep;
use crate::parser_tools::djot_options::DjotImportOptions;
use crate::text_laws::{is_blank, is_solid, words_are_what_space_parts};
use crate::text::to_chars;

verus! {

broadcast use group_deep_view;

/// How words are delimited. Characters are always counted the same way (Unicode scalar
/// values), independent of this choice: see [`WordCharCounts`].
#[derive(Clone, Copy, Debug, PartialEq, Eq, Hash, Structural)]
pub enum CountMethod {
    /// By white space: fast, parity mode. Miscounts scripts that are not
    /// space-delimited (CJK) and is crude around punctuation, but it is exactly what
    /// many word processors report.
    WhitespaceSplit,
    /// UAX #29 word segmentation: the sound general-purpose default:
    /// apostrophes glue (`"Elena's"` is one word), hyphens split, punctuation-only runs
    /// are excluded. Still undercounts CJK (a run of ideographs may segment as one word).
    UnicodeWords,
    /// UAX #29 for alphabetic scripts, but every Han / Hiragana / Katakana character counts
    /// as one word: the East-Asian convention. Applied per character (not per detected script
    /// run). Korean (Hangul) is space-delimited and stays on the
    /// [`UnicodeWords`](CountMethod::UnicodeWords) rule.
    CjkHybrid,
}

impl Default for CountMethod {
    fn default() -> (method: Self)
        ensures
            method == CountMethod::UnicodeWords,
    {
        CountMethod::UnicodeWords
    }
}

/// The three counts a caller might display. All three are always computed: "characters
/// with spaces" vs "without" is a display choice, not a separate counting mode.
#[derive(Clone, Copy, Debug, PartialEq, Eq, Structural)]
pub struct WordCharCounts {
    pub words: usize,
    pub chars_with_spaces: usize,
    pub chars_without_spaces: usize,
}

impl Default for WordCharCounts {
    fn default() -> (counts: Self)
        ensures
            counts == (WordCharCounts { words: 0, chars_with_spaces: 0, chars_without_spaces: 0 }),
    {
        WordCharCounts { words: 0, chars_with_spaces: 0, chars_without_spaces: 0 }
    }
}

/// The words of a text by UAX #29, as the unicode-segmentation crate finds them.
pub uninterp spec fn unicode_word_list(text: Seq<char>) -> Seq<Seq<char>>;

/// Whether a word stands somewhere in a text.
pub open spec fn is_part(text: Seq<char>, word: Seq<char>) -> bool {
    exists|i: int, j: int| 0 <= i <= j <= text.len() && #[trigger] text.subrange(i, j) == word
}

/// Collects `UnicodeSegmentation::unicode_words` of a text. The contract claims that
/// the words are a function of the text, named by [`unicode_word_list`], and that each
/// is a part of the text.
#[verifier::external_body]
fn unicode_words(text: &str) -> (found: Vec<String>)
    ensures
        found.deep_view() == unicode_word_list(text@),
        forall|i: int| 0 <= i < found.len() ==> is_part(text@, (#[trigger] found@[i])@),
{
    text.unicode_words().map(|word| word.to_string()).collect()
}

/// Han ideographs (incl. common extensions & compatibility) and Japanese kana. Excludes
/// Hangul: Korean is space-delimited and counts by the UAX #29 word rule.
pub open spec fn han_or_kana(c: char) -> bool {
    let code = c as u32;
    ||| 0x3400 <= code <= 0x4DBF
    ||| 0x4E00 <= code <= 0x9FFF
    ||| 0xF900 <= code <= 0xFAFF
    ||| 0x20000 <= code <= 0x3FFFF
    ||| 0x3040 <= code <= 0x309F
    ||| 0x30A0 <= code <= 0x30FF
    ||| 0x31F0 <= code <= 0x31FF
    ||| 0xFF66 <= code <= 0xFF9D
}

/// Han ideographs (incl. common extensions & compatibility) and Japanese kana.
pub fn is_han_or_kana(c: char) -> (is: bool)
    ensures
        is == han_or_kana(c),
{
    let code: u32 = c as u32;
    // CJK Unified Ideographs Extension A, CJK Unified Ideographs, CJK Compatibility
    // Ideographs, Supplementary + Tertiary Ideographic Planes, Hiragana, Katakana,
    // Katakana Phonetic Extensions, Halfwidth Katakana.
    (0x3400 <= code && code <= 0x4DBF) || (0x4E00 <= code && code <= 0x9FFF) || (0xF900 <= code
        && code <= 0xFAFF) || (0x20000 <= code && code <= 0x3FFFF) || (0x3040 <= code && code
        <= 0x309F) || (0x30A0 <= code && code <= 0x30FF) || (0x31F0 <= code && code <= 0x31FF) || (
    0xFF66 <= code && code <= 0xFF9D)
}

/// The number of characters of a text that are not white space.
pub open spec fn visible_chars(text: Seq<char>) -> nat
    decreases text.len(),
{
    if text.len() == 0 {
        0
    } else {
        visible_chars(text.drop_last()) + if white_space(text.last()) {
            0nat
        } else {
            1nat
        }
    }
}

/// The number of Han ideographs and kana of a text.
pub open spec fn cjk_chars(text: Seq<char>) -> nat
    decreases text.len(),
{
    if text.len() == 0 {
        0
    } else {
        cjk_chars(text.drop_last()) + if han_or_kana(text.last()) {
            1nat
        } else {
            0nat
        }
    }
}

/// The number of words that hold no Han ideograph and no kana.
pub open spec fn other_words(found: Seq<Seq<char>>) -> nat
    decreases found.len(),
{
    if found.len() == 0 {
        0
    } else {
        other_words(found.drop_last()) + if cjk_chars(found.last()) == 0 {
            1nat
        } else {
            0nat
        }
    }
}

/// The number of words of a text, its UAX #29 words being `found`.
pub open spec fn word_total(text: Seq<char>, found: Seq<Seq<char>>, method: CountMethod) -> nat {
    match method {
        CountMethod::WhitespaceSplit => words(text).len(),
        CountMethod::UnicodeWords => found.len(),
        CountMethod::CjkHybrid => cjk_chars(text) + other_words(found),
    }
}

/// The count of Han ideographs and kana.
fn count_cjk(chars: &Vec<char>) -> (n: usize)
    ensures
        n == cjk_chars(chars@),
        n <= chars@.len(),
{
    let mut n: usize = 0;
    for i in 0..chars.len()
        invariant
            n <= i,
            n == cjk_chars(chars@.take(i as int)),
    {
        assert(chars@.take(i + 1).drop_last() =~= chars@.take(i as int));
        if is_han_or_kana(chars[i]) {
            n += 1;
        }
    }
    assert(chars@.take(chars@.len() as int) =~= chars@);
    n
}

/// Count words and characters in already-extracted plain text whose UAX #29 words are
/// `found`. A sum of words past what a size can say stays there.
pub fn count_with_words(text: &str, found: &Vec<String>, method: CountMethod) -> (counts:
    WordCharCounts)
    ensures
        counts.chars_with_spaces == text@.len(),
        counts.chars_without_spaces == visible_chars(text@),
        counts.words == if word_total(text@, found.deep_view(), method) <= usize::MAX {
            word_total(text@, found.deep_view(), method) as usize
        } else {
            usize::MAX
        },
{
    let chars = to_chars(text);
    let mut visible: usize = 0;
    for i in 0..chars.len()
        invariant
            chars@ == text@,
            visible <= i,
            visible == visible_chars(chars@.take(i as int)),
    {
        assert(chars@.take(i + 1).drop_last() =~= chars@.take(i as int));
        if !is_white_space(chars[i]) {
            visible += 1;
        }
    }
    assert(chars@.take(chars@.len() as int) =~= chars@);
    let total: usize = match method {
        CountMethod::WhitespaceSplit => {
            let split = split_words(chars.as_slice());
            assert(split.deep_view().len() == split@.len());
            split.len()
        },
        CountMethod::UnicodeWords => found.len(),
        CountMethod::CjkHybrid => {
            // Each Han/Kana character is one word; every UAX #29 word that contains no
            // Han/Kana is one word.
            let ghost all = found.deep_view();
            let cjk: usize = count_cjk(&chars);
            let mut others: usize = 0;
            for i in 0..found.len()
                invariant
                    all == found.deep_view(),
                    others <= i,
                    others == other_words(all.take(i as int)),
            {
                proof {
                    assert(all.take(i + 1).drop_last() =~= all.take(i as int));
                    assert(all.take(i + 1).last() == found@[i as int]@);
                }
                if count_cjk(&to_chars(found[i].as_str())) == 0 {
                    others += 1;
                }
            }
            assert(all.take(all.len() as int) =~= all);
            if cjk <= usize::MAX - others {
                cjk + others
            } else {
                usize::MAX
            }
        },
    };
    WordCharCounts {
        words: total,
        chars_with_spaces: chars.len(),
        chars_without_spaces: visible,
    }
}

/// Whether counts are those of a text whose UAX #29 words are `found`.
pub open spec fn counts_of(
    counts: WordCharCounts,
    text: Seq<char>,
    found: Seq<Seq<char>>,
    method: CountMethod,
) -> bool {
    &&& counts.chars_with_spaces == text.len()
    &&& counts.chars_without_spaces == visible_chars(text)
    &&& counts.words == if word_total(text, found, method) <= usize::MAX {
        word_total(text, found, method) as usize
    } else {
        usize::MAX
    }
}

/// Characters are counted the same way whatever the method, and those that are not
/// white space are no more than all.
pub proof fn characters_do_not_depend_on_the_method(
    a: WordCharCounts,
    b: WordCharCounts,
    text: Seq<char>,
    found: Seq<Seq<char>>,
    method: CountMethod,
    other: CountMethod,
)
    requires
        counts_of(a, text, found, method),
        counts_of(b, text, found, other),
    ensures
        a.chars_with_spaces == b.chars_with_spaces,
        a.chars_without_spaces == b.chars_without_spaces,
        a.chars_without_spaces <= a.chars_with_spaces,
{
    visible_within(text);
}

proof fn visible_within(text: Seq<char>)
    ensures
        visible_chars(text) <= text.len(),
    decreases text.len(),
{
    if text.len() > 0 {
        visible_within(text.drop_last());
    }
}

proof fn part_without_cjk(text: Seq<char>, i: int, j: int)
    requires
        cjk_chars(text) == 0,
        0 <= i <= j <= text.len(),
    ensures
        cjk_chars(text.subrange(i, j)) == 0,
    decreases text.len(),
{
    let part = text.subrange(i, j);
    if j < text.len() {
        part_without_cjk(text.drop_last(), i, j);
        assert(text.drop_last().subrange(i, j) =~= part);
    } else if i < j {
        part_without_cjk(text.drop_last(), i, j - 1);
        assert(text.drop_last().subrange(i, j - 1) =~= part.drop_last());
    }
}

/// In a text without Han ideographs and kana the hybrid method counts the UAX #29
/// words.
pub proof fn alphabetic_text_counts_by_unicode_words(text: Seq<char>, found: Seq<Seq<char>>)
    requires
        cjk_chars(text) == 0,
        forall|i: int| 0 <= i < found.len() ==> is_part(text, #[trigger] found[i]),
    ensures
        word_total(text, found, CountMethod::CjkHybrid) == word_total(
            text,
            found,
            CountMethod::UnicodeWords,
        ),
    decreases found.len(),
{
    if found.len() > 0 {
        alphabetic_text_counts_by_unicode_words(text, found.drop_last());
        let word = found.last();
        assert(is_part(text, found[found.len() - 1]));
        let (i, j) = choose|i: int, j: int|
            0 <= i <= j <= text.len() && #[trigger] text.subrange(i, j) == word;
        part_without_cjk(text, i, j);
    }
}

proof fn counts_add_up(a: Seq<char>, b: Seq<char>)
    ensures
        visible_chars(a + b) == visible_chars(a) + visible_chars(b),
        cjk_chars(a + b) == cjk_chars(a) + cjk_chars(b),
    decreases b.len(),
{
    if b.len() == 0 {
        assert(a + b =~= a);
    } else {
        counts_add_up(a, b.drop_last());
        assert((a + b).drop_last() =~= a + b.drop_last());
        assert((a + b).last() == b.last());
    }
}

/// Each character counts one where it is not white space, and each Han ideograph and each
/// kana one; a text counts what its parts do.
pub proof fn characters_count_one_by_one(a: Seq<char>, c: char, b: Seq<char>)
    ensures
        visible_chars(Seq::empty()) == 0,
        white_space(c) ==> visible_chars(a + seq![c] + b) == visible_chars(a) + visible_chars(b),
        !white_space(c) ==> visible_chars(a + seq![c] + b) == visible_chars(a) + 1 + visible_chars(
            b,
        ),
        cjk_chars(Seq::empty()) == 0,
        han_or_kana(c) ==> cjk_chars(a + seq![c] + b) == cjk_chars(a) + 1 + cjk_chars(b),
        !han_or_kana(c) ==> cjk_chars(a + seq![c] + b) == cjk_chars(a) + cjk_chars(b),
{
    let none = Seq::<char>::empty();
    assert(seq![c].drop_last() =~= none);
    assert(visible_chars(none) == 0 && cjk_chars(none) == 0);
    counts_add_up(a, seq![c]);
    counts_add_up(a + seq![c], b);
}

/// The characters that count one each are the ideographs of all planes and the kana of both
/// widths. Hangul, letters, digits and punctuation are none of them.
pub proof fn ideographs_and_kana_are_told_apart(c: char)
    ensures
        '\u{4E00}' <= c <= '\u{9FFF}' || '\u{3400}' <= c <= '\u{4DBF}' || '\u{F900}' <= c
            <= '\u{FAFF}' || '\u{20000}' <= c <= '\u{3FFFF}' ==> han_or_kana(c),
        '\u{3040}' <= c <= '\u{30FF}' || '\u{31F0}' <= c <= '\u{31FF}' || '\u{FF66}' <= c
            <= '\u{FF9D}' ==> han_or_kana(c),
        c < '\u{3040}' || '\u{3100}' <= c <= '\u{31EF}' || '\u{3200}' <= c <= '\u{33FF}'
            || '\u{4DC0}' <= c <= '\u{4DFF}' || '\u{A000}' <= c <= '\u{D7FF}' || '\u{E000}' <= c
            <= '\u{F8FF}' || '\u{FB00}' <= c <= '\u{FF65}' || '\u{FF9E}' <= c <= '\u{1FFFF}' || c
            >= '\u{40000}' ==> !han_or_kana(c),
{
}

/// By white space, a word is what white space parts from the rest; by UAX #29, what is
/// found; in the hybrid method, each ideograph and kana, and each word that is found and
/// holds none of them.
pub proof fn words_count_one_by_one(
    gap: Seq<char>,
    word: Seq<char>,
    rest: Seq<char>,
    found: Seq<Seq<char>>,
)
    requires
        is_blank(gap),
        is_solid(word),
        word.len() > 0,
        rest.len() > 0 ==> white_space(rest[0]),
    ensures
        word_total(gap + word + rest, found, CountMethod::WhitespaceSplit) == 1 + word_total(
            rest,
            found,
            CountMethod::WhitespaceSplit,
        ),
        word_total(gap, found, CountMethod::WhitespaceSplit) == 0,
        word_total(rest, found, CountMethod::UnicodeWords) == found.len(),
        word_total(rest, Seq::empty(), CountMethod::CjkHybrid) == cjk_chars(rest),
        cjk_chars(word) == 0 ==> word_total(rest, found.push(word), CountMethod::CjkHybrid)
            == word_total(rest, found, CountMethod::CjkHybrid) + 1,
        cjk_chars(word) > 0 ==> word_total(rest, found.push(word), CountMethod::CjkHybrid)
            == word_total(rest, found, CountMethod::CjkHybrid),
{
    words_are_what_space_parts(gap, word, rest);
    assert(found.push(word).drop_last() =~= found);
    assert(other_words(Seq::empty()) == 0);
}

/// Count words and characters in already-extracted plain text.
pub fn count(text: &str, method: CountMethod) -> (counts: WordCharCounts)
    ensures
        counts_of(counts, text@, unicode_word_list(text@), method),
        method == CountMethod::CjkHybrid && cjk_chars(text@) == 0 ==> counts_of(
            counts,
            text@,
            unicode_word_list(text@),
            CountMethod::UnicodeWords,
        ),
{
    let found = unicode_words(text);
    proof {
        if cjk_chars(text@) == 0 {
            alphabetic_text_counts_by_unicode_words(text@, found.deep_view());
        }
    }
    count_with_words(text, &found, method)
}

/// Extract prose from Djot source, then count. The two steps are kept apart: the
/// extraction carries a contract of its own.
pub fn count_djot(djot: &str, method: CountMethod) -> (counts: WordCharCounts)
    requires
        too_deep(djot@) || parser_bears(djot@),
    ensures
        counts_of(
            counts,
            djot_plain_text(djot@, djot_event_stream(djot@), DjotImportOptions::lossless()),
            unicode_word_list(
                djot_plain_text(djot@, djot_event_stream(djot@), DjotImportOptions::lossless()),
            ),
            method,
        ),
{
    let text = djot_to_plain_text(djot, &DjotImportOptions::default());
    count(text.as_str(), method)
}

} // verus!
