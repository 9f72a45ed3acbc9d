//! What a violation of the format-run invariants says in words.
use vstd::prelude::*;

use crate::chars::{decimal_text, digits_of, signed_digits, signed_text};
use crate::entities::{CharVerticalAlignment, UnderlineStyle};
use crate::format_runs::{
    CharacterFormat, FormatModel, FormatRun, FormatRunError, RunErrorModel, RunModel,
};
use crate::models::group_deep_view;

verus! {

broadcast use group_deep_view;

/// A text as a debug print shows it.
pub uninterp spec fn debug_text(text: Seq<char>) -> Seq<char>;

/// Prints a text with `core::fmt::Debug for str`. The contract claims that the print
/// is a function of the text, named by [`debug_text`].
#[verifier::external_body]
fn print_text(text: &str) -> (shown: String)
    ensures
        shown@ == debug_text(text@),
{
    format!("{text:?}")
}

/// Something that may be missing, printed.
pub open spec fn shown_option(value: Option<Seq<char>>) -> Seq<char> {
    match value {
        Some(text) => "Some("@ + text + ")"@,
        None => "None"@,
    }
}

/// Something that may be missing, printed.
fn show_option(value: Option<String>) -> (shown: String)
    ensures
        shown@ == shown_option(value.deep_view()),
{
    match value {
        Some(text) => {
            let mut shown = "Some(".to_string();
            shown.push_str(text.as_str());
            shown.push_str(")");
            shown
        },
        None => "None".to_string(),
    }
}

/// A text that may be missing, printed.
pub open spec fn shown_text(value: Option<Seq<char>>) -> Seq<char> {
    match value {
        Some(text) => shown_option(Some(debug_text(text))),
        None => shown_option(None),
    }
}

/// A text that may be missing, printed.
fn show_text(value: &Option<String>) -> (shown: String)
    ensures
        shown@ == shown_text(value.deep_view()),
{
    match value {
        Some(text) => show_option(Some(print_text(text.as_str()))),
        None => show_option(None),
    }
}

/// A number that may be missing, printed.
pub open spec fn shown_number(value: Option<i64>) -> Seq<char> {
    match value {
        Some(n) => shown_option(Some(signed_digits(n as int))),
        None => shown_option(None),
    }
}

/// A number that may be missing, printed.
fn show_number(value: Option<i64>) -> (shown: String)
    ensures
        shown@ == shown_number(value),
{
    match value {
        Some(n) => show_option(Some(signed_text(n))),
        None => show_option(None),
    }
}

/// A flag that may be missing, printed.
pub open spec fn shown_flag(value: Option<bool>) -> Seq<char> {
    match value {
        Some(true) => shown_option(Some("true"@)),
        Some(false) => shown_option(Some("false"@)),
        None => shown_option(None),
    }
}

/// A flag that may be missing, printed.
fn show_flag(value: Option<bool>) -> (shown: String)
    ensures
        shown@ == shown_flag(value),
{
    match value {
        Some(true) => show_option(Some("true".to_string())),
        Some(false) => show_option(Some("false".to_string())),
        None => show_option(None),
    }
}

/// The first `n` of some texts, printed, with a comma between each two.
pub open spec fn shown_items(texts: Seq<Seq<char>>, n: int) -> Seq<char>
    decreases n,
{
    if n <= 0 {
        "["@
    } else if n == 1 {
        "["@ + debug_text(texts[0])
    } else {
        shown_items(texts, n - 1) + ", "@ + debug_text(texts[n - 1])
    }
}

/// Texts, printed.
pub open spec fn shown_list(texts: Seq<Seq<char>>) -> Seq<char> {
    shown_items(texts, texts.len() as int) + "]"@
}

/// Texts, printed.
fn show_list(texts: &Vec<String>) -> (shown: String)
    ensures
        shown@ == shown_list(texts.deep_view()),
{
    let ghost all = texts.deep_view();
    let mut shown = "[".to_string();
    for i in 0..texts.len()
        invariant
            all == texts.deep_view(),
            shown@ == shown_items(all, i as int),
    {
        if i > 0 {
            shown.push_str(", ");
        }
        shown.push_str(print_text(texts[i].as_str()).as_str());
    }
    shown.push_str("]");
    shown
}

/// The name of an underline style, if there is one, printed.
pub open spec fn shown_underline(value: Option<UnderlineStyle>) -> Seq<char> {
    match value {
        Some(UnderlineStyle::NoUnderline) => shown_option(Some("NoUnderline"@)),
        Some(UnderlineStyle::SingleUnderline) => shown_option(Some("SingleUnderline"@)),
        Some(UnderlineStyle::DashUnderline) => shown_option(Some("DashUnderline"@)),
        Some(UnderlineStyle::DotLine) => shown_option(Some("DotLine"@)),
        Some(UnderlineStyle::DashDotLine) => shown_option(Some("DashDotLine"@)),
        Some(UnderlineStyle::DashDotDotLine) => shown_option(Some("DashDotDotLine"@)),
        Some(UnderlineStyle::WaveUnderline) => shown_option(Some("WaveUnderline"@)),
        Some(UnderlineStyle::SpellCheckUnderline) => shown_option(Some("SpellCheckUnderline"@)),
        None => shown_option(None),
    }
}

/// The name of an underline style, if there is one, printed.
fn show_underline(value: Option<UnderlineStyle>) -> (shown: String)
    ensures
        shown@ == shown_underline(value),
{
    match value {
        Some(UnderlineStyle::NoUnderline) => show_option(Some("NoUnderline".to_string())),
        Some(UnderlineStyle::SingleUnderline) => show_option(Some("SingleUnderline".to_string())),
        Some(UnderlineStyle::DashUnderline) => show_option(Some("DashUnderline".to_string())),
        Some(UnderlineStyle::DotLine) => show_option(Some("DotLine".to_string())),
        Some(UnderlineStyle::DashDotLine) => show_option(Some("DashDotLine".to_string())),
        Some(UnderlineStyle::DashDotDotLine) => show_option(Some("DashDotDotLine".to_string())),
        Some(UnderlineStyle::WaveUnderline) => show_option(Some("WaveUnderline".to_string())),
        Some(UnderlineStyle::SpellCheckUnderline) => show_option(Some("SpellCheckUnderline".to_string())),
        None => show_option(None),
    }
}

/// The name of a vertical alignment, if there is one, printed.
pub open spec fn shown_alignment(value: Option<CharVerticalAlignment>) -> Seq<char> {
    match value {
        Some(CharVerticalAlignment::Normal) => shown_option(Some("Normal"@)),
        Some(CharVerticalAlignment::SuperScript) => shown_option(Some("SuperScript"@)),
        Some(CharVerticalAlignment::SubScript) => shown_option(Some("SubScript"@)),
        Some(CharVerticalAlignment::Middle) => shown_option(Some("Middle"@)),
        Some(CharVerticalAlignment::Bottom) => shown_option(Some("Bottom"@)),
        Some(CharVerticalAlignment::Top) => shown_option(Some("Top"@)),
        Some(CharVerticalAlignment::Baseline) => shown_option(Some("Baseline"@)),
        None => shown_option(None),
    }
}

/// The name of a vertical alignment, if there is one, printed.
fn show_alignment(value: Option<CharVerticalAlignment>) -> (shown: String)
    ensures
        shown@ == shown_alignment(value),
{
    match value {
        Some(CharVerticalAlignment::Normal) => show_option(Some("Normal".to_string())),
        Some(CharVerticalAlignment::SuperScript) => show_option(Some("SuperScript".to_string())),
        Some(CharVerticalAlignment::SubScript) => show_option(Some("SubScript".to_string())),
        Some(CharVerticalAlignment::Middle) => show_option(Some("Middle".to_string())),
        Some(CharVerticalAlignment::Bottom) => show_option(Some("Bottom".to_string())),
        Some(CharVerticalAlignment::Top) => show_option(Some("Top".to_string())),
        Some(CharVerticalAlignment::Baseline) => show_option(Some("Baseline".to_string())),
        None => show_option(None),
    }
}

/// A character format, printed.
pub open spec fn shown_format(format: FormatModel) -> Seq<char> {
    "CharacterFormat { font_family: "@ + shown_text(format.font_family)
        + ", font_point_size: "@ + shown_number(format.font_point_size)
        + ", font_weight: "@ + shown_number(format.font_weight)
        + ", font_bold: "@ + shown_flag(format.font_bold)
        + ", font_italic: "@ + shown_flag(format.font_italic)
        + ", font_underline: "@ + shown_flag(format.font_underline)
        + ", font_overline: "@ + shown_flag(format.font_overline)
        + ", font_strikeout: "@ + shown_flag(format.font_strikeout)
        + ", letter_spacing: "@ + shown_number(format.letter_spacing)
        + ", word_spacing: "@ + shown_number(format.word_spacing)
        + ", anchor_href: "@ + shown_text(format.anchor_href)
        + ", anchor_names: "@ + shown_list(format.anchor_names)
        + ", is_anchor: "@ + shown_flag(format.is_anchor)
        + ", tooltip: "@ + shown_text(format.tooltip)
        + ", underline_style: "@ + shown_underline(format.underline_style)
        + ", vertical_alignment: "@ + shown_alignment(format.vertical_alignment)
        + " }"@
}

/// A character format, printed.
fn show_format(format: &CharacterFormat) -> (shown: String)
    ensures
        shown@ == shown_format(format.deep_view()),
{
    let mut shown = "CharacterFormat { font_family: ".to_string();
    shown.push_str(show_text(&format.font_family).as_str());
    shown.push_str(", font_point_size: ");
    shown.push_str(show_number(format.font_point_size).as_str());
    shown.push_str(", font_weight: ");
    shown.push_str(show_number(format.font_weight).as_str());
    shown.push_str(", font_bold: ");
    shown.push_str(show_flag(format.font_bold).as_str());
    shown.push_str(", font_italic: ");
    shown.push_str(show_flag(format.font_italic).as_str());
    shown.push_str(", font_underline: ");
    shown.push_str(show_flag(format.font_underline).as_str());
    shown.push_str(", font_overline: ");
    shown.push_str(show_flag(format.font_overline).as_str());
    shown.push_str(", font_strikeout: ");
    shown.push_str(show_flag(format.font_strikeout).as_str());
    shown.push_str(", letter_spacing: ");
    shown.push_str(show_number(format.letter_spacing).as_str());
    shown.push_str(", word_spacing: ");
    shown.push_str(show_number(format.word_spacing).as_str());
    shown.push_str(", anchor_href: ");
    shown.push_str(show_text(&format.anchor_href).as_str());
    shown.push_str(", anchor_names: ");
    shown.push_str(show_list(&format.anchor_names).as_str());
    shown.push_str(", is_anchor: ");
    shown.push_str(show_flag(format.is_anchor).as_str());
    shown.push_str(", tooltip: ");
    shown.push_str(show_text(&format.tooltip).as_str());
    shown.push_str(", underline_style: ");
    shown.push_str(show_underline(format.underline_style).as_str());
    shown.push_str(", vertical_alignment: ");
    shown.push_str(show_alignment(format.vertical_alignment).as_str());
    shown.push_str(" }");
    shown
}

/// A format run, printed.
pub open spec fn shown_run(run: RunModel) -> Seq<char> {
    "FormatRun { byte_start: "@ + digits_of(run.start as nat) + ", byte_end: "@ + digits_of(
        run.end as nat,
    ) + ", format: "@ + shown_format(run.format) + " }"@
}

/// A format run, printed.
fn show_run(run: &FormatRun) -> (shown: String)
    ensures
        shown@ == shown_run(run.deep_view()),
{
    let mut shown = "FormatRun { byte_start: ".to_string();
    shown.push_str(decimal_text(run.byte_start as u64).as_str());
    shown.push_str(", byte_end: ");
    shown.push_str(decimal_text(run.byte_end as u64).as_str());
    shown.push_str(", format: ");
    shown.push_str(show_format(&run.format).as_str());
    shown.push_str(" }");
    shown
}

/// What a violation of the invariants says.
pub open spec fn run_error_text(error: RunErrorModel) -> Seq<char> {
    match error {
        RunErrorModel::ReversedRange { start, end } => "byte range "@ + digits_of(start as nat)
            + ".."@ + digits_of(end as nat) + " is reversed"@,
        RunErrorModel::ReplacementOutsideRange { run_start, run_end, range_start, range_end } => {
            "replacement run "@ + digits_of(run_start as nat) + ".."@ + digits_of(run_end as nat)
                + " falls outside the spliced range "@ + digits_of(range_start as nat) + ".."@
                + digits_of(range_end as nat)
        },
        RunErrorModel::EmptyRun { start, end } => "run "@ + digits_of(start as nat) + ".."@
            + digits_of(end as nat) + " is empty or reversed"@,
        RunErrorModel::RunsOverlap { index, left, right } => {
            "runs overlap or are out of order at index "@ + digits_of(index as nat) + ": "@
                + shown_run(left) + " then "@ + shown_run(right)
        },
        RunErrorModel::RunsNotCoalesced { index } => {
            "adjacent runs with identical formatting were left uncoalesced at index "@ + digits_of(
                index as nat,
            )
        },
        RunErrorModel::RunPastEndOfBlock { start, end, text_len } => "run "@ + digits_of(
            start as nat,
        ) + ".."@ + digits_of(end as nat) + " runs past the end of the block's "@ + digits_of(
            text_len as nat,
        ) + " bytes"@,
    }
}

impl FormatRunError {
    /// The violation in words.
    pub fn message(&self) -> (message: String)
        ensures
            message@ == run_error_text(self.deep_view()),
    {
        match self {
            FormatRunError::ReversedRange { start, end } => {
                let mut message = "byte range ".to_string();
                message.push_str(decimal_text(*start as u64).as_str());
                message.push_str("..");
                message.push_str(decimal_text(*end as u64).as_str());
                message.push_str(" is reversed");
                message
            },
            FormatRunError::ReplacementOutsideRange {
                run_start,
                run_end,
                range_start,
                range_end,
            } => {
                let mut message = "replacement run ".to_string();
                message.push_str(decimal_text(*run_start as u64).as_str());
                message.push_str("..");
                message.push_str(decimal_text(*run_end as u64).as_str());
                message.push_str(" falls outside the spliced range ");
                message.push_str(decimal_text(*range_start as u64).as_str());
                message.push_str("..");
                message.push_str(decimal_text(*range_end as u64).as_str());
                message
            },
            FormatRunError::EmptyRun { start, end } => {
                let mut message = "run ".to_string();
                message.push_str(decimal_text(*start as u64).as_str());
                message.push_str("..");
                message.push_str(decimal_text(*end as u64).as_str());
                message.push_str(" is empty or reversed");
                message
            },
            FormatRunError::RunsOverlap { index, left, right } => {
                let mut message = "runs overlap or are out of order at index ".to_string();
                message.push_str(decimal_text(*index as u64).as_str());
                message.push_str(": ");
                message.push_str(show_run(left).as_str());
                message.push_str(" then ");
                message.push_str(show_run(right).as_str());
                message
            },
            FormatRunError::RunsNotCoalesced { index } => {
                let mut message =
                    "adjacent runs with identical formatting were left uncoalesced at index "
                    .to_string();
                message.push_str(decimal_text(*index as u64).as_str());
                message
            },
            FormatRunError::RunPastEndOfBlock { start, end, text_len } => {
                let mut message = "run ".to_string();
                message.push_str(decimal_text(*start as u64).as_str());
                message.push_str("..");
                message.push_str(decimal_text(*end as u64).as_str());
                message.push_str(" runs past the end of the block's ");
                message.push_str(decimal_text(*text_len as u64).as_str());
                message.push_str(" bytes");
                message
            },
        }
    }
}

} // verus!
