//! Questions about characters, and the small grammars that short texts follow.
use vstd::prelude::*;

verus! {

/// Whether a character has the Unicode `White_Space` property.
pub open spec fn white_space(c: char) -> bool {
    ||| '\u{9}' <= c <= '\u{D}'
    ||| c == ' '
    ||| c == '\u{85}'
    ||| c == '\u{A0}'
    ||| c == '\u{1680}'
    ||| '\u{2000}' <= c <= '\u{200A}'
    ||| c == '\u{2028}'
    ||| c == '\u{2029}'
    ||| c == '\u{202F}'
    ||| c == '\u{205F}'
    ||| c == '\u{3000}'
}

/// Whether a character has the Unicode `White_Space` property.
pub fn is_white_space(c: char) -> (is: bool)
    ensures
        is == white_space(c),
{
    ('\u{9}' <= c && c <= '\u{D}') || c == ' ' || c == '\u{85}' || c == '\u{A0}' || c == '\u{1680}'
        || ('\u{2000}' <= c && c <= '\u{200A}') || c == '\u{2028}' || c == '\u{2029}' || c
        == '\u{202F}' || c == '\u{205F}' || c == '\u{3000}'
}

/// A text without the white space it begins with.
pub open spec fn trim_start(text: Seq<char>) -> Seq<char>
    decreases text.len(),
{
    if text.len() > 0 && white_space(text[0]) {
        trim_start(text.skip(1))
    } else {
        text
    }
}

/// A text without the white space it ends with.
pub open spec fn trim_end(text: Seq<char>) -> Seq<char>
    decreases text.len(),
{
    if text.len() > 0 && white_space(text.last()) {
        trim_end(text.drop_last())
    } else {
        text
    }
}

/// A text without the white space around it.
pub open spec fn trim(text: Seq<char>) -> Seq<char> {
    trim_end(trim_start(text))
}

/// Where the part of a text begins and ends that has no white space around it.
fn trim_bounds(chars: &[char]) -> (bounds: (usize, usize))
    ensures
        bounds.0 <= bounds.1 <= chars@.len(),
        chars@.subrange(bounds.0 as int, bounds.1 as int) == trim(chars@),
{
    let mut start: usize = 0;
    assert(chars@.skip(0) =~= chars@);
    while start < chars.len() && is_white_space(chars[start])
        invariant
            start <= chars@.len(),
            trim_start(chars@) == trim_start(chars@.skip(start as int)),
        decreases chars@.len() - start,
    {
        assert(chars@.skip(start as int).skip(1) =~= chars@.skip(start + 1));
        start += 1;
    }
    let ghost head = chars@.skip(start as int);
    assert(trim_start(chars@) == head);
    let mut end: usize = chars.len();
    assert(chars@.subrange(start as int, end as int) =~= head);
    while end > start && is_white_space(chars[end - 1])
        invariant
            start <= end <= chars@.len(),
            trim_end(head) == trim_end(chars@.subrange(start as int, end as int)),
        decreases end,
    {
        assert(chars@.subrange(start as int, end as int).drop_last() =~= chars@.subrange(
            start as int,
            end - 1,
        ));
        end -= 1;
    }
    (start, end)
}

/// A copy of a part of some characters.
pub fn part(chars: &[char], start: usize, end: usize) -> (out: Vec<char>)
    requires
        start <= end <= chars@.len(),
    ensures
        out@ == chars@.subrange(start as int, end as int),
{
    let mut out: Vec<char> = Vec::new();
    for i in start..end
        invariant
            start <= end <= chars@.len(),
            out@ == chars@.subrange(start as int, i as int),
    {
        out.push(chars[i]);
        assert(chars@.subrange(start as int, i + 1) =~= chars@.subrange(
            start as int,
            i as int,
        ).push(chars@[i as int]));
    }
    out
}

/// The characters without the white space around them.
pub fn trimmed(chars: &[char]) -> (out: Vec<char>)
    ensures
        out@ == trim(chars@),
{
    let bounds = trim_bounds(chars);
    part(chars, bounds.0, bounds.1)
}

/// An ASCII capital as its small letter; any other character as it is.
pub open spec fn ascii_lower(c: char) -> char {
    if 'A' <= c <= 'Z' {
        ((c as u32 + 32) as u8) as char
    } else {
        c
    }
}

/// A text with its ASCII capitals as small letters.
pub open spec fn lowered(text: Seq<char>) -> Seq<char> {
    text.map_values(|c: char| ascii_lower(c))
}

/// The characters with their ASCII capitals as small letters.
pub fn to_lower(chars: &[char]) -> (out: Vec<char>)
    ensures
        out@ == lowered(chars@),
{
    let mut out: Vec<char> = Vec::new();
    for i in 0..chars.len()
        invariant
            out@ == lowered(chars@).take(i as int),
    {
        let c = chars[i];
        let small = if 'A' <= c && c <= 'Z' {
            ((c as u32 + 32) as u8) as char
        } else {
            c
        };
        out.push(small);
        assert(lowered(chars@).take(i + 1) =~= lowered(chars@).take(i as int).push(small));
    }
    assert(lowered(chars@).take(chars@.len() as int) =~= lowered(chars@));
    out
}

/// Whether characters spell a string.
pub fn spells(chars: &[char], word: &str) -> (same: bool)
    ensures
        same == (chars@ == word@),
{
    let letters = crate::text::to_chars(word);
    if chars.len() != letters.len() {
        return false;
    }
    for i in 0..chars.len()
        invariant
            chars@.len() == letters@.len(),
            letters@ == word@,
            forall|j: int| 0 <= j < i ==> chars@[j] == letters@[j],
    {
        if chars[i] != letters[i] {
            return false;
        }
    }
    assert(chars@ =~= letters@);
    true
}

/// Whether a character is an ASCII digit.
pub open spec fn digit(c: char) -> bool {
    '0' <= c <= '9'
}

/// The number that decimal digits spell.
pub open spec fn decimal(digits: Seq<char>) -> nat
    decreases digits.len(),
{
    if digits.len() == 0 {
        0
    } else {
        decimal(digits.drop_last()) * 10 + (digits.last() as nat - '0' as nat) as nat
    }
}

/// Whether a text is one decimal digit or more.
pub open spec fn all_digits(text: Seq<char>) -> bool {
    text.len() > 0 && forall|i: int| 0 <= i < text.len() ==> digit(#[trigger] text[i])
}

/// The 64-bit number that a text spells: decimal digits behind at most one
/// sign, within range.
pub open spec fn number(text: Seq<char>) -> Option<i64> {
    let signed = text.len() > 0 && (text[0] == '+' || text[0] == '-');
    let digits = if signed {
        text.skip(1)
    } else {
        text
    };
    let value: int = if signed && text[0] == '-' {
        -(decimal(digits) as int)
    } else {
        decimal(digits) as int
    };
    if all_digits(digits) && i64::MIN <= value <= i64::MAX {
        Some(value as i64)
    } else {
        None
    }
}

proof fn decimal_grows(digits: Seq<char>, i: int)
    requires
        0 <= i <= digits.len(),
    ensures
        decimal(digits.take(i)) <= decimal(digits),
    decreases digits.len(),
{
    if i == digits.len() {
        assert(digits.take(i) =~= digits);
    } else {
        assert(digits.drop_last().take(i) =~= digits.take(i));
        decimal_grows(digits.drop_last(), i);
    }
}

/// The 64-bit number that characters spell.
pub fn parse_number(chars: &[char]) -> (value: Option<i64>)
    ensures
        value == number(chars@),
{
    let signed: bool = chars.len() > 0 && (chars[0] == '+' || chars[0] == '-');
    let negative: bool = signed && chars[0] == '-';
    let start: usize = if signed {
        1
    } else {
        0
    };
    let ghost digits = if signed {
        chars@.skip(1)
    } else {
        chars@
    };
    if chars.len() == start {
        return None;
    }
    let mut value: u64 = 0;
    assert(digits.take(0) =~= Seq::<char>::empty());
    for i in start..chars.len()
        invariant
            start <= 1,
            start <= i <= chars@.len(),
            digits == chars@.skip(start as int),
            digits == (if signed {
                chars@.skip(1)
            } else {
                chars@
            }),
            signed == (chars@.len() > 0 && (chars@[0] == '+' || chars@[0] == '-')),
            negative == (signed && chars@[0] == '-'),
            forall|j: int| 0 <= j < i - start ==> digit(#[trigger] digits[j]),
            value == decimal(digits.take(i - start)),
            value <= 0x8000_0000_0000_0000,
    {
        let c = chars[i];
        assert(digits[i - start] == c);
        if !('0' <= c && c <= '9') {
            assert(!digit(digits[i - start]));
            return None;
        }
        proof {
            assert(digits.take(i - start + 1).drop_last() =~= digits.take(i - start));
            decimal_grows(digits, i - start + 1);
        }
        let wide: u128 = value as u128 * 10 + (c as u32 - '0' as u32) as u128;
        if wide > 0x8000_0000_0000_0000u128 {
            return None;
        }
        value = wide as u64;
    }
    assert(digits.take(digits.len() as int) =~= digits);
    if negative {
        if value == 0x8000_0000_0000_0000 {
            Some(i64::MIN)
        } else {
            Some(-(value as i64))
        }
    } else if value == 0x8000_0000_0000_0000 {
        None
    } else {
        Some(value as i64)
    }
}

/// The first position from `from` on whose character is white space, or is
/// not, as `space` says; or the end.
pub open spec fn next_space(text: Seq<char>, from: int, space: bool) -> int
    decreases text.len() - from,
{
    if from < 0 || from >= text.len() {
        text.len() as int
    } else if white_space(text[from]) == space {
        from
    } else {
        next_space(text, from + 1, space)
    }
}

/// The words of a text from `from` on: what white space separates.
pub open spec fn words_from(text: Seq<char>, from: int) -> Seq<Seq<char>>
    decreases text.len() - from,
{
    let start = next_space(text, from, false);
    let end = next_space(text, start, true);
    if 0 <= from <= start < end <= text.len() {
        seq![text.subrange(start, end)] + words_from(text, end)
    } else {
        Seq::empty()
    }
}

/// The words of a text: what white space separates.
pub open spec fn words(text: Seq<char>) -> Seq<Seq<char>> {
    words_from(text, 0)
}

/// The first position from `from` on whose character is white space, or is not.
fn find_space(text: &[char], from: usize, space: bool) -> (at: usize)
    requires
        from <= text@.len(),
    ensures
        at == next_space(text@, from as int, space),
        from <= at <= text@.len(),
        at < text@.len() ==> white_space(text@[at as int]) == space,
{
    let mut at: usize = from;
    while at < text.len() && is_white_space(text[at]) != space
        invariant
            from <= at <= text@.len(),
            next_space(text@, from as int, space) == next_space(text@, at as int, space),
        decreases text@.len() - at,
    {
        at += 1;
    }
    at
}

/// The words of a text: what white space separates.
pub fn split_words(text: &[char]) -> (out: Vec<Vec<char>>)
    ensures
        out.deep_view() == words(text@),
        out@.len() <= text@.len(),
{
    let mut out: Vec<Vec<char>> = Vec::new();
    let mut from: usize = 0;
    assert(out.deep_view() =~= Seq::<Seq<char>>::empty());
    assert(Seq::<Seq<char>>::empty() + words_from(text@, 0) =~= words_from(text@, 0));
    loop
        invariant
            from <= text@.len(),
            out@.len() <= from,
            out.deep_view() + words_from(text@, from as int) == words(text@),
        ensures
            out.deep_view() == words(text@),
            out@.len() <= text@.len(),
        decreases text@.len() - from,
    {
        let ghost done = out.deep_view();
        let start: usize = find_space(text, from, false);
        if start == text.len() {
            assert(done + Seq::<Seq<char>>::empty() =~= done);
            break ;
        }
        let end: usize = find_space(text, start, true);
        let word = part(text, start, end);
        assert(end > start);
        out.push(word);
        proof {
            assert(word.deep_view() =~= word@);
            assert(out.deep_view() =~= done.push(word@));
            assert(done + (seq![word@] + words_from(text@, end as int)) =~= done.push(word@)
                + words_from(text@, end as int));
        }
        from = end;
    }
    out
}

/// Whether a text begins with another.
pub open spec fn begins_with(text: Seq<char>, prefix: Seq<char>) -> bool {
    prefix.len() <= text.len() && text.take(prefix.len() as int) == prefix
}

/// The rest of some characters behind a prefix, if they begin with it.
pub fn after_prefix(chars: &[char], prefix: &str) -> (rest: Option<Vec<char>>)
    ensures
        match rest {
            Some(r) => begins_with(chars@, prefix@) && r@ == chars@.skip(prefix@.len() as int),
            None => !begins_with(chars@, prefix@),
        },
{
    let letters = crate::text::to_chars(prefix);
    if chars.len() < letters.len() {
        return None;
    }
    let head = part(chars, 0, letters.len());
    assert(head@ =~= chars@.take(prefix@.len() as int));
    if spells(head.as_slice(), prefix) {
        let rest = part(chars, letters.len(), chars.len());
        assert(rest@ =~= chars@.skip(prefix@.len() as int));
        Some(rest)
    } else {
        None
    }
}

/// The decimal digits of a number.
pub open spec fn digits_of(n: nat) -> Seq<char>
    decreases n,
{
    if n < 10 {
        seq![digit_char(n)]
    } else {
        digits_of(n / 10).push(digit_char(n % 10))
    }
}

/// The character of a digit.
pub open spec fn digit_char(n: nat) -> char {
    (('0' as u32 + n) as u8) as char
}

/// The decimal digits of a number.
pub fn decimal_text(n: u64) -> (text: String)
    ensures
        text@ == digits_of(n as nat),
    decreases n,
{
    let digit = (('0' as u32 + (n % 10) as u32) as u8) as char;
    if n < 10 {
        let mut text = String::new();
        text.push(digit);
        assert(text@ =~= digits_of(n as nat));
        text
    } else {
        let mut text = decimal_text(n / 10);
        text.push(digit);
        text
    }
}

/// The digits of a number spell it.
pub proof fn digits_spell_the_number(n: nat)
    ensures
        decimal(digits_of(n)) == n,
        all_digits(digits_of(n)),
    decreases n,
{
    if n < 10 {
        assert(digits_of(n).drop_last() =~= Seq::<char>::empty());
        assert(decimal(Seq::<char>::empty()) == 0);
    } else {
        digits_spell_the_number(n / 10);
        assert(digits_of(n).drop_last() =~= digits_of(n / 10));
    }
}

/// Whether characters are the same but for the case of ASCII letters.
pub fn same_but_case(a: &[char], b: &[char]) -> (same: bool)
    ensures
        same == (lowered(a@) == lowered(b@)),
{
    let x = to_lower(a);
    let y = to_lower(b);
    if x.len() != y.len() {
        return false;
    }
    for i in 0..x.len()
        invariant
            x@.len() == y@.len(),
            x@ == lowered(a@),
            y@ == lowered(b@),
            forall|j: int| 0 <= j < i ==> x@[j] == y@[j],
    {
        if x[i] != y[i] {
            return false;
        }
    }
    assert(x@ =~= y@);
    true
}

/// The decimal digits of a number, behind a minus sign where it is negative.
pub open spec fn signed_digits(n: int) -> Seq<char> {
    if n < 0 {
        seq!['-'] + digits_of((-n) as nat)
    } else {
        digits_of(n as nat)
    }
}

/// The decimal digits of a number, behind a minus sign where it is negative.
pub fn signed_text(n: i64) -> (text: String)
    ensures
        text@ == signed_digits(n as int),
{
    if n < 0 {
        let mut text = String::new();
        text.push('-');
        assert(text@ =~= seq!['-']);
        let size: u64 = (-(n as i128)) as u64;
        text.push_str(decimal_text(size).as_str());
        text
    } else {
        decimal_text(n as u64)
    }
}

} // verus!
