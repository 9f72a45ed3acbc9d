//! What the small grammars of short texts read, stated over the texts.
use vstd::prelude::*;

use crate::chars::{
    all_digits, decimal, digit, digits_of, digits_spell_the_number, lowered, next_space, number,
    signed_digits, trim, trim_end, trim_start, white_space, words, words_from,
};

verus! {

/// Whether a text is white space alone.
pub open spec fn is_blank(text: Seq<char>) -> bool {
    forall|i: int| 0 <= i < text.len() ==> white_space(#[trigger] text[i])
}

/// Whether a text holds no white space.
pub open spec fn is_solid(text: Seq<char>) -> bool {
    forall|i: int| 0 <= i < text.len() ==> !white_space(#[trigger] text[i])
}

/// White space is the tab, the line ends and the spaces of Unicode, and no letter, digit or
/// sign.
pub proof fn white_space_is_unicodes(c: char)
    ensures
        white_space(c) <==> {
            let code = c as u32;
            ||| 0x09 <= code <= 0x0D
            ||| code == 0x20
            ||| code == 0x85
            ||| code == 0xA0
            ||| code == 0x1680
            ||| 0x2000 <= code <= 0x200A
            ||| code == 0x2028
            ||| code == 0x2029
            ||| code == 0x202F
            ||| code == 0x205F
            ||| code == 0x3000
        },
{
}

pub(crate) proof fn start_is_trimmed(before: Seq<char>, text: Seq<char>)
    requires
        is_blank(before),
        text.len() > 0 ==> !white_space(text[0]),
    ensures
        trim_start(before + text) == text,
    decreases before.len(),
{
    if before.len() == 0 {
        assert(before + text =~= text);
    } else {
        let all = before + text;
        assert(all[0] == before[0]);
        assert(all.skip(1) =~= before.skip(1) + text);
        assert forall|i: int| 0 <= i < before.skip(1).len() implies white_space(
            #[trigger] before.skip(1)[i],
        ) by {
            assert(before.skip(1)[i] == before[i + 1]);
        }
        start_is_trimmed(before.skip(1), text);
    }
}

proof fn end_is_trimmed(text: Seq<char>, behind: Seq<char>)
    requires
        is_blank(behind),
        text.len() > 0 ==> !white_space(text.last()),
    ensures
        trim_end(text + behind) == text,
    decreases behind.len(),
{
    if behind.len() == 0 {
        assert(text + behind =~= text);
    } else {
        let all = text + behind;
        assert(all.last() == behind.last());
        assert(all.drop_last() =~= text + behind.drop_last());
        end_is_trimmed(text, behind.drop_last());
    }
}

/// To trim a text is to drop the white space around it, and nothing else.
pub proof fn trim_drops_what_is_around(before: Seq<char>, text: Seq<char>, behind: Seq<char>)
    requires
        is_blank(before),
        is_blank(behind),
        text.len() > 0 ==> !white_space(text[0]) && !white_space(text.last()),
    ensures
        trim(before + text + behind) == text,
{
    if text.len() > 0 {
        assert(before + text + behind =~= before + (text + behind));
        start_is_trimmed(before, text + behind);
        end_is_trimmed(text, behind);
    } else {
        let all = before + text + behind;
        assert(all =~= all + text);
        assert forall|i: int| 0 <= i < all.len() implies white_space(#[trigger] all[i]) by {
            if i < before.len() {
                assert(all[i] == before[i]);
            } else {
                assert(all[i] == behind[i - before.len()]);
            }
        }
        start_is_trimmed(all, text);
    }
}

/// Lowering a text turns its ASCII capitals into the letters they are capitals of and
/// leaves every other character.
pub proof fn lowering_is_of_capitals(text: Seq<char>, i: int)
    requires
        0 <= i < text.len(),
    ensures
        lowered(text).len() == text.len(),
        0x41 <= text[i] as u32 <= 0x5A ==> lowered(text)[i] as u32 == text[i] as u32 + 0x20,
        !(0x41 <= text[i] as u32 <= 0x5A) ==> lowered(text)[i] == text[i],
{
    let c = text[i];
    if 0x41 <= c as u32 <= 0x5A {
        let n: u32 = c as u32;
        let m: u32 = (n + 32) as u32;
        assert(((m as u8) as u32) == m) by (bit_vector)
            requires
                m < 128,
        ;
    }
}

/// A digit more at the end of a number makes it ten times as large, and adds itself.
pub proof fn digits_weigh_ten_times(digits: Seq<char>, c: char)
    requires
        digit(c),
    ensures
        0x30 <= c as u32 <= 0x39,
        decimal(digits.push(c)) == 10 * decimal(digits) + (c as u32 - 0x30),
        decimal(Seq::empty()) == 0,
{
    assert(digits.push(c).drop_last() =~= digits);
}

/// Every number of 64 bits is read from its digits, with a minus sign before them where it
/// is negative; a plus sign before the digits of another changes nothing.
pub proof fn number_is_read_from_its_digits(n: i64)
    ensures
        number(signed_digits(n as int)) == Some(n),
        n >= 0 ==> number(seq!['+'] + digits_of(n as nat)) == Some(n),
{
    let size: nat = if n < 0 {
        (-n) as nat
    } else {
        n as nat
    };
    let digits = digits_of(size);
    digits_spell_the_number(size);
    assert(digit(digits[0]));
    assert((seq!['-'] + digits).skip(1) =~= digits);
    assert((seq!['+'] + digits).skip(1) =~= digits);
}

/// What is no number is not read as one: a text without digits, one with a character that
/// is no digit behind its first, one that is too large.
pub proof fn nothing_else_is_a_number(text: Seq<char>, i: int, n: int)
    ensures
        number(Seq::empty()) is None,
        number(seq!['+']) is None,
        number(seq!['-']) is None,
        0 < i < text.len() && !(0x30 <= text[i] as u32 <= 0x39) ==> number(text) is None,
        text.len() > 0 && !(0x30 <= text[0] as u32 <= 0x39) && text[0] != '+' && text[0] != '-'
            ==> number(text) is None,
        (n < i64::MIN || n > i64::MAX) ==> number(signed_digits(n)) is None,
{
    if text.len() > 0 {
        let rest = text.skip(1);
        if 0 < i < text.len() {
            assert(rest[i - 1] == text[i]);
            if !(0x30 <= text[i] as u32 <= 0x39) {
                assert(!digit(text[i]));
                assert(!all_digits(rest));
                assert(!all_digits(text));
            }
        }
        if !(0x30 <= text[0] as u32 <= 0x39) {
            assert(!digit(text[0]));
            assert(!all_digits(text));
        }
    }
    if n < i64::MIN || n > i64::MAX {
        let size: nat = if n < 0 {
            (-n) as nat
        } else {
            n as nat
        };
        let digits = digits_of(size);
        digits_spell_the_number(size);
        assert(digit(digits[0]));
        assert((seq!['-'] + digits).skip(1) =~= digits);
    }
}

proof fn next_space_passes(text: Seq<char>, from: int, to: int, space: bool)
    requires
        0 <= from <= to <= text.len(),
        forall|i: int| from <= i < to ==> white_space(#[trigger] text[i]) != space,
        to < text.len() ==> white_space(text[to]) == space,
    ensures
        next_space(text, from, space) == to,
    decreases to - from,
{
    if from < to {
        assert(white_space(text[from]) != space);
        next_space_passes(text, from + 1, to, space);
    }
}

proof fn spaces_are_relative(text: Seq<char>, before: Seq<char>, from: int, space: bool)
    requires
        0 <= from,
    ensures
        next_space(before + text, from + before.len(), space) == next_space(text, from, space)
            + before.len(),
    decreases text.len() - from,
{
    if from < text.len() {
        assert((before + text)[from + before.len()] == text[from]);
        spaces_are_relative(text, before, from + 1, space);
    }
}

proof fn words_are_relative(text: Seq<char>, before: Seq<char>, from: int)
    requires
        0 <= from,
    ensures
        words_from(before + text, from + before.len()) == words_from(text, from),
    decreases text.len() - from,
{
    let start = next_space(text, from, false);
    let end = next_space(text, start, true);
    let far = before.len() as int;
    spaces_are_relative(text, before, from, false);
    if start >= 0 {
        spaces_are_relative(text, before, start, true);
    }
    if 0 <= from <= start < end <= text.len() {
        assert((before + text).subrange(start + far, end + far) =~= text.subrange(start, end));
        words_are_relative(text, before, end);
    }
}

/// The words of a text are what white space parts: one that stands behind some and before
/// the end or more of it is the first, and the rest follow.
pub proof fn words_are_what_space_parts(gap: Seq<char>, word: Seq<char>, rest: Seq<char>)
    requires
        is_blank(gap),
        is_solid(word),
        rest.len() > 0 ==> white_space(rest[0]),
    ensures
        word.len() > 0 ==> words(gap + word + rest) == seq![word] + words(rest),
        words(gap) == Seq::<Seq<char>>::empty(),
{
    next_space_passes(gap, 0, gap.len() as int, false);
    if word.len() > 0 {
        let before = gap + word;
        let text = before + rest;
        let start = gap.len() as int;
        let end = before.len() as int;
        assert forall|i: int| 0 <= i < start implies white_space(#[trigger] text[i]) by {
            assert(text[i] == gap[i]);
        }
        assert(text[start] == word[0]);
        next_space_passes(text, 0, start, false);
        assert forall|i: int| start <= i < end implies !white_space(#[trigger] text[i]) by {
            assert(text[i] == word[i - start]);
        }
        if end < text.len() {
            assert(text[end] == rest[0]);
        }
        next_space_passes(text, start, end, true);
        assert(text.subrange(start, end) =~= word);
        words_are_relative(rest, before, 0);
    }
}

} // verus!
