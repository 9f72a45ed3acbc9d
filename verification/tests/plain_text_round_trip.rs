use text_document::parser_tools::djot_escape::escape_djot_inline;
use text_document::parser_tools::{
    djot_round_trip_is_lossy, djot_to_plain_text, guard_djot_block_start, plain_text_to_djot,
    DjotImportOptions,
};

fn read_back(text: &str) -> String {
    djot_to_plain_text(&plain_text_to_djot(text), &DjotImportOptions::default())
}

/// The characters of a line, each with whether a backslash goes before it.
fn marked(line: &[char]) -> Vec<(char, bool)> {
    let digits = line.iter().take_while(|c| c.is_ascii_digit()).count();
    let guard = if "#>-+:".contains(line[0]) {
        Some(0)
    } else if digits > 0 && digits < line.len() && line[digits] == '.' {
        Some(digits)
    } else {
        None
    };
    line.iter()
        .enumerate()
        .map(|(i, c)| (*c, "\\*_`~^[](){}|<".contains(*c) || guard == Some(i)))
        .collect()
}

fn is_number(chars: &[(char, bool)]) -> bool {
    let all = |f: fn(char) -> bool| chars.iter().all(|c| f(c.0));
    (chars.len() <= 19 && all(|c| c.is_ascii_digit()))
        || (chars.len() <= 13 && all(|c| "ivxlcdm".contains(c)))
        || (chars.len() <= 13 && all(|c| "IVXLCDM".contains(c)))
        || (chars.len() == 1 && chars[0].0.is_ascii_alphabetic())
}

fn is_symbol(rest: &[(char, bool)]) -> bool {
    let name = rest[1..]
        .iter()
        .take_while(|c| !c.1 && (c.0.is_ascii_alphanumeric() || c.0 == '-' || c.0 == '+'))
        .count();
    rest[0] == (':', false) && rest.get(1 + name) == Some(&(':', false))
}

/// Whether a line is written as prose and nothing else.
fn survives(line: &str) -> bool {
    let chars: Vec<char> = line.chars().collect();
    if chars.is_empty()
        || chars[0].is_ascii_whitespace()
        || chars[chars.len() - 1].is_ascii_whitespace()
    {
        return false;
    }
    is_plain(&marked(&chars))
}

/// Whether a line is prose and nothing else without the white space around it, or is
/// white space alone.
fn survives_padded(line: &str) -> bool {
    let chars: Vec<char> = line.chars().collect();
    if chars.is_empty() {
        return true;
    }
    let line = marked(&chars);
    let black: Vec<usize> = (0..line.len())
        .filter(|i| !line[*i].0.is_ascii_whitespace())
        .collect();
    match (black.first(), black.last()) {
        (Some(a), Some(b)) => {
            let core = &line[*a..*b + 1];
            (core[0].1 || !"#>-+:".contains(core[0].0)) && is_plain(core)
        }
        _ => true,
    }
}

/// Whether marked characters without white space around them are prose.
fn is_plain(line: &[(char, bool)]) -> bool {
    let blank_at = |i: usize| line.get(i).map_or(true, |c| c.0.is_ascii_whitespace());
    (0..line.len()).all(|i| {
        let rest = &line[i..];
        !(rest[0].0 == '\'' || rest[0].0 == '"')
            && !rest.starts_with(&[('-', false), ('-', false)])
            && !rest.starts_with(&[('.', false), ('.', false), ('.', false)])
            && !is_symbol(rest)
            && !(i > 0 && line[i] == ('.', false) && blank_at(i + 1) && is_number(&line[..i]))
    })
}

#[test]
fn text_comes_back_exactly_where_its_lines_survive() {
    let alphabets = [
        "aix.. --::  \n'\"\t\r\u{c}\u{b}#>+*_`~^[](){}|<=!$1209vIZ\\/@,;é\u{a0}\u{3000}%&?",
        "aix..-: \n#>+*_1) (]=!\\v\u{a0}",
    ];
    let mut state: u64 = 88172645463325252;
    let mut draw = move |n: usize| {
        state ^= state << 13;
        state ^= state >> 7;
        state ^= state << 17;
        ((state >> 11) % n as u64) as usize
    };
    for round in 0..40_000 {
        let alphabet: Vec<char> = alphabets[round % 2].chars().collect();
        let text: String = (0..1 + draw(12))
            .map(|_| alphabet[draw(alphabet.len())])
            .collect();
        let kept = text.split('\n').all(survives);
        assert_eq!(
            djot_round_trip_is_lossy(&text),
            !kept,
            "{text:?} was read back as {:?}",
            read_back(&text)
        );
    }
}

#[test]
fn padding_is_lost_and_nothing_else() {
    let alphabet: Vec<char> = "aix..-: \n\n \t\r#>+*_1) (]=!\\v\u{a0}\u{c}  ".chars().collect();
    let mut state: u64 = 0x9E37_79B9_7F4A_7C15;
    let mut draw = move |n: usize| {
        state ^= state << 13;
        state ^= state >> 7;
        state ^= state << 17;
        ((state >> 11) % n as u64) as usize
    };
    let mut met = 0;
    for _ in 0..40_000 {
        let text: String = (0..1 + draw(14))
            .map(|_| alphabet[draw(alphabet.len())])
            .collect();
        if !text.split('\n').all(survives_padded) {
            continue;
        }
        met += 1;
        let kept: Vec<&str> = text
            .split('\n')
            .map(|line| line.trim_matches(|c: char| c.is_ascii_whitespace()))
            .filter(|line| !line.is_empty())
            .collect();
        assert_eq!(read_back(&text), kept.join("\n"), "{text:?}");
    }
    assert!(met > 5_000, "{met}");
}

#[test]
fn blank_lines_and_padding_are_always_reported() {
    let alphabet: Vec<char> = "aix..--:: \n\n \t\r#>+*_1)'\"(]=!\\v\u{c}  ".chars().collect();
    let mut state: u64 = 0x2545_F491_4F6C_DD1D;
    let mut draw = move |n: usize| {
        state ^= state << 13;
        state ^= state >> 7;
        state ^= state << 17;
        ((state >> 11) % n as u64) as usize
    };
    let mut met = 0;
    for _ in 0..40_000 {
        let text: String = (0..1 + draw(16))
            .map(|_| alphabet[draw(alphabet.len())])
            .collect();
        let white = |c: Option<char>| c.map_or(false, |c| c.is_ascii_whitespace());
        let blank = text.split('\n').any(|line| line.is_empty());
        let padded = text
            .split('\n')
            .any(|line| white(line.chars().next()) || white(line.chars().last()));
        let back = read_back(&text);
        assert!(back.chars().count() <= text.chars().count(), "{text:?}");
        if blank || padded {
            met += 1;
            assert!(djot_round_trip_is_lossy(&text), "{text:?}");
            assert!(back.chars().count() < text.chars().count(), "{text:?}");
        }
    }
    assert!(met > 10_000, "{met}");
    for text in ["  - it's", "a. x \n\n' ", "\n:::\n", " ::: a", "  # h", " : x\n# y"] {
        assert!(djot_round_trip_is_lossy(text), "{text:?}");
    }
}

#[test]
fn what_does_not_come_back_is_reported() {
    for (text, back) in [
        ("it's", "it\u{2019}s"),
        ("wait...", "wait\u{2026}"),
        ("1999--2001", "1999\u{2013}2001"),
        ("a :smile: b", "a  b"),
        ("a. point", "point"),
        (" indented", "indented"),
        ("\nlate", "late"),
    ] {
        assert_eq!(read_back(text), back, "{text:?}");
        assert!(djot_round_trip_is_lossy(text), "{text:?}");
    }
}

#[test]
fn a_guard_takes_one_hyphen_or_period_out_of_a_run() {
    for text in ["--", "1...", "- -", "12. x", "::", "x: y: z", "e.g.", "ab. x", "A.B"] {
        assert_eq!(read_back(text), text);
        assert!(!djot_round_trip_is_lossy(text), "{text:?}");
    }
    assert!(djot_round_trip_is_lossy("---"));
    assert!(djot_round_trip_is_lossy("1...."));
}

#[test]
fn text_that_nests_too_deep_reads_back_as_its_djot() {
    let deep = format!("{}x*", "\u{3000}".repeat(100));
    assert_eq!(read_back(&deep), plain_text_to_djot(&deep));
    assert!(djot_round_trip_is_lossy(&deep));
    let untouched = format!("{}x", "\u{3000}".repeat(100));
    assert!(!djot_round_trip_is_lossy(&untouched));
}

#[test]
fn escapes_stand_before_each_special_character() {
    assert_eq!(
        escape_djot_inline("\\*_`~^[](){}|<>\"'."),
        "\\\\\\*\\_\\`\\~\\^\\[\\]\\(\\)\\{\\}\\|\\<>\"'."
    );
    assert_eq!(guard_djot_block_start(""), "");
    assert_eq!(guard_djot_block_start("> q"), "\\> q");
    assert_eq!(guard_djot_block_start("12x"), "12x");
    assert_eq!(plain_text_to_djot("\n\na*\n\n# b\n"), "a\\*\n\n\\# b");
}
