//! What the options of an export come to, stated over names, media types and bytes.
use vstd::prelude::*;

use crate::chars::{digits_of, lowered};
use crate::order::{
    in_key_order, is_strictly_in_order, lookup, lookup_gives_back_what_was_set, precedes,
    with_entry_keeps_key_order,
};
use crate::parser_tools::comment_options::{registered, CommentModel, DocumentComment};
use crate::parser_tools::docx_options::{docx_overrides_nothing, docx_ramp, DocxExportOptions};
use crate::parser_tools::heading_ramp::{ramp_level, scaled_size};
use crate::parser_tools::image_options::{
    base64_letter, base64_text, extension_of, registered_images, PayloadModel,
};
use crate::parser_tools::mark_options::{
    bad_char, is_reserved, listed, mark_problem, mark_report, mark_reports, name_char, name_start,
    problem_text, DocumentMark, MarkModel, MarkProblem,
};
use crate::parser_tools::odt_options::{odt_overrides_nothing, odt_ramp, OdtExportOptions};
use crate::parser_tools::text_options::{FORM_FEED, HTML_PAGE_BREAK_STYLE};
use crate::text::byte_len;
use crate::text_laws::lowering_is_of_capitals;

verus! {

// ─── Names of marks ──────────────────────────────────────────────────

/// Whether a character is an ASCII letter, an ASCII digit or an underscore.
pub open spec fn is_word_char(c: char) -> bool {
    let code = c as u32;
    ||| 0x41 <= code <= 0x5A
    ||| 0x61 <= code <= 0x7A
    ||| 0x30 <= code <= 0x39
    ||| code == 0x5F
}

proof fn word_chars_are_name_chars(c: char)
    ensures
        is_word_char(c) == name_char(c),
        name_start(c) <==> is_word_char(c) && !(0x30 <= c as u32 <= 0x39),
{
}

proof fn codes_tell_apart(c: char, d: char)
    ensures
        c as u32 == d as u32 ==> c == d,
{
}

proof fn bad_char_is(name: Seq<char>, from: int, at: int)
    requires
        0 <= from <= at <= name.len(),
        forall|i: int| from <= i < at ==> is_word_char(#[trigger] name[i]),
        at < name.len() ==> !is_word_char(name[at]),
    ensures
        at < name.len() ==> bad_char(name, from) == Some(name[at]),
        at == name.len() ==> bad_char(name, from) is None,
    decreases at - from,
{
    if from < name.len() {
        word_chars_are_name_chars(name[from]);
    }
    if from < at {
        assert(is_word_char(name[from]));
        bad_char_is(name, from + 1, at);
    }
}

proof fn bad_char_is_somewhere(name: Seq<char>, from: int) -> (at: int)
    requires
        0 <= from <= name.len(),
    ensures
        from <= at <= name.len(),
        forall|i: int| from <= i < at ==> is_word_char(#[trigger] name[i]),
        at < name.len() ==> !is_word_char(name[at]),
    decreases name.len() - from,
{
    if from < name.len() && is_word_char(name[from]) {
        bad_char_is_somewhere(name, from + 1)
    } else {
        from
    }
}

/// Whether a name has only the letters of a word, whatever their case.
pub open spec fn is_in_any_case(name: Seq<char>, word: Seq<char>) -> bool {
    &&& name.len() == word.len()
    &&& forall|i: int|
        0 <= i < name.len() ==> #[trigger] name[i] == word[i] || (0x41 <= name[i] as u32 <= 0x5A
            && name[i] as u32 + 0x20 == word[i] as u32)
}

proof fn lowered_is(name: Seq<char>, word: Seq<char>)
    requires
        forall|i: int|
            0 <= i < word.len() ==> !(0x41 <= (#[trigger] word[i]) as u32 <= 0x5A),
    ensures
        lowered(name) == word <==> is_in_any_case(name, word),
{
    assert forall|i: int| 0 <= i < name.len() implies {
        &&& 0x41 <= (#[trigger] name[i]) as u32 <= 0x5A ==> lowered(name)[i] as u32 == name[i] as u32
            + 0x20
        &&& !(0x41 <= name[i] as u32 <= 0x5A) ==> lowered(name)[i] == name[i]
    } by {
        lowering_is_of_capitals(name, i);
    }
    if is_in_any_case(name, word) {
        assert forall|i: int| 0 <= i < name.len() implies lowered(name)[i] == word[i] by {
            assert(name[i] == word[i] || (0x41 <= name[i] as u32 <= 0x5A && name[i] as u32 + 0x20
                == word[i] as u32));
            codes_tell_apart(lowered(name)[i], word[i]);
        }
        assert(lowered(name) =~= word);
    }
    if lowered(name) == word {
        assert forall|i: int| 0 <= i < name.len() implies #[trigger] name[i] == word[i] || (0x41
            <= name[i] as u32 <= 0x5A && name[i] as u32 + 0x20 == word[i] as u32) by {
            assert(lowered(name)[i] == word[i]);
        }
    }
}

/// The names that are reserved, in whatever case.
proof fn reserved_names_are(name: Seq<char>)
    ensures
        is_reserved(name) <==> (is_in_any_case(name, "_goback"@) || is_in_any_case(name, "_toc"@)
            || is_in_any_case(name, "_ref"@) || is_in_any_case(name, "_hlk"@) || is_in_any_case(
            name,
            "_mailautosig"@,
        )),
{
    reveal_strlit("_GoBack");
    reveal_strlit("_Toc");
    reveal_strlit("_Ref");
    reveal_strlit("_Hlk");
    reveal_strlit("_MailAutoSig");
    reveal_strlit("_goback");
    reveal_strlit("_toc");
    reveal_strlit("_ref");
    reveal_strlit("_hlk");
    reveal_strlit("_mailautosig");
    lowered_is("_GoBack"@, "_goback"@);
    lowered_is("_Toc"@, "_toc"@);
    lowered_is("_Ref"@, "_ref"@);
    lowered_is("_Hlk"@, "_hlk"@);
    lowered_is("_MailAutoSig"@, "_mailautosig"@);
    lowered_is(name, "_goback"@);
    lowered_is(name, "_toc"@);
    lowered_is(name, "_ref"@);
    lowered_is(name, "_hlk"@);
    lowered_is(name, "_mailautosig"@);
}

/// A mark is valid exactly where its range does not end before it starts and its name has
/// one to forty characters, all of them ASCII letters, digits or underscores, the first no
/// digit, and is none that is reserved.
pub proof fn valid_marks(mark: MarkModel)
    ensures
        mark_problem(mark) is None <==> {
            &&& mark.start <= mark.end
            &&& 0 < mark.name.len()
            &&& byte_len(mark.name) <= 40
            &&& forall|i: int| 0 <= i < mark.name.len() ==> is_word_char(#[trigger] mark.name[i])
            &&& !(0x30 <= mark.name[0] as u32 <= 0x39)
            &&& !is_in_any_case(mark.name, "_goback"@)
            &&& !is_in_any_case(mark.name, "_toc"@)
            &&& !is_in_any_case(mark.name, "_ref"@)
            &&& !is_in_any_case(mark.name, "_hlk"@)
            &&& !is_in_any_case(mark.name, "_mailautosig"@)
        },
        mark_report(mark) is None <==> mark_problem(mark) is None,
{
    reserved_names_are(mark.name);
    if mark.name.len() > 0 {
        word_chars_are_name_chars(mark.name[0]);
    }
    let at = bad_char_is_somewhere(mark.name, 0);
    bad_char_is(mark.name, 0, at);
}

/// Of several problems of a mark the one that is asked first is told: a range that ends
/// before it starts, no name, one that is too long, one that begins wrongly, the first
/// character that may not stand in one, and last a name that is reserved.
pub proof fn first_problem_is_told(mark: MarkModel, at: int)
    requires
        0 <= at <= mark.name.len(),
        forall|i: int| 0 <= i < at ==> is_word_char(#[trigger] mark.name[i]),
        at < mark.name.len() ==> !is_word_char(mark.name[at]),
    ensures
        ({
            let problem = mark_problem(mark);
            let begins = mark.name.len() > 0 && is_word_char(mark.name[0]) && !(0x30
                <= mark.name[0] as u32 <= 0x39);
            &&& mark.end < mark.start <==> problem == Some(MarkProblem::Inverted)
            &&& mark.start <= mark.end && mark.name.len() == 0 <==> problem == Some(
                MarkProblem::NoName,
            )
            &&& mark.start <= mark.end && mark.name.len() > 0 && byte_len(mark.name) > 40
                <==> problem == Some(MarkProblem::TooLong)
            &&& mark.start <= mark.end && 0 < mark.name.len() && byte_len(mark.name) <= 40
                && !begins <==> problem == Some(MarkProblem::BadStart)
            &&& mark.start <= mark.end && byte_len(mark.name) <= 40 && begins && at
                < mark.name.len() ==> problem == Some(MarkProblem::BadChar(mark.name[at]))
        }),
{
    if mark.name.len() > 0 {
        word_chars_are_name_chars(mark.name[0]);
    }
    bad_char_is(mark.name, 0, at);
}

proof fn reports_add_up(a: Seq<MarkModel>, b: Seq<MarkModel>)
    ensures
        mark_reports(a + b) == mark_reports(a) + mark_reports(b),
    decreases b.len(),
{
    if b.len() == 0 {
        assert(a + b =~= a);
        assert(mark_reports(a) + mark_reports(b) =~= mark_reports(a));
    } else {
        reports_add_up(a, b.drop_last());
        assert((a + b).drop_last() =~= a + b.drop_last());
        assert((a + b).last() == b.last());
        assert(mark_reports(a + b) =~= mark_reports(a) + mark_reports(b));
    }
}

/// The problems of all marks are told, one report for each mark that has one and in the
/// order of the marks.
pub proof fn every_problem_is_told(before: Seq<MarkModel>, mark: MarkModel, behind: Seq<MarkModel>)
    ensures
        mark_problem(mark) is None ==> mark_reports(before + seq![mark] + behind) == mark_reports(
            before,
        ) + mark_reports(behind),
        mark_problem(mark) is Some ==> mark_reports(before + seq![mark] + behind) == mark_reports(
            before,
        ) + seq![mark_report(mark)->0] + mark_reports(behind),
        mark_reports(Seq::empty()).len() == 0,
{
    reports_add_up(before, seq![mark]);
    reports_add_up(before + seq![mark], behind);
    let none = Seq::<MarkModel>::empty();
    assert(seq![mark].drop_last() =~= none);
    assert(mark_reports(none) =~= Seq::<Seq<char>>::empty());
    if mark_problem(mark) is None {
        assert(mark_reports(seq![mark]) =~= Seq::<Seq<char>>::empty());
        assert(mark_reports(before) + Seq::<Seq<char>>::empty() + mark_reports(behind)
            =~= mark_reports(before) + mark_reports(behind));
    } else {
        assert(mark_reports(seq![mark]) =~= seq![mark_report(mark)->0]);
    }
}

/// Reports are listed with a semicolon and a space between each two.
pub proof fn reports_are_listed(a: Seq<Seq<char>>, b: Seq<Seq<char>>, report: Seq<char>)
    ensures
        listed(Seq::empty()).len() == 0,
        listed(seq![report]) == report,
        a.len() > 0 && b.len() > 0 ==> listed(a + b) == listed(a) + seq![';', ' '] + listed(b),
    decreases b.len(),
{
    reveal_strlit("; ");
    assert("; "@ =~= seq![';', ' ']);
    if a.len() > 0 && b.len() > 0 {
        assert((a + b).drop_last() =~= a + b.drop_last());
        assert((a + b).last() == b.last());
        if b.len() == 1 {
            assert(a + b.drop_last() =~= a);
        } else {
            reports_are_listed(a, b.drop_last(), report);
            assert(listed(a + b) =~= listed(a) + seq![';', ' '] + listed(b));
        }
    }
}

/// What is said of a mark names it, and says what is wrong: both ends of a range that is
/// inverted, the length of a name that is too long.
pub proof fn reports_name_the_mark(mark: MarkModel, c: char, shown: Seq<char>)
    ensures
        problem_text(mark, MarkProblem::Inverted, shown) == "mark '"@ + mark.name + "' ends ("@
            + digits_of(mark.end as nat) + ") before it starts ("@ + digits_of(mark.start as nat)
            + ")"@,
        problem_text(mark, MarkProblem::NoName, shown)
            == "a mark with an empty name carries no identity"@,
        problem_text(mark, MarkProblem::TooLong, shown) == "mark name '"@ + mark.name + "' is "@
            + digits_of(byte_len(mark.name)) + " characters; Word drops anything over 40"@,
        problem_text(mark, MarkProblem::BadStart, shown) == "mark name '"@ + mark.name
            + "' must begin with a letter or underscore"@,
        problem_text(mark, MarkProblem::BadChar(c), shown) == "mark name '"@ + mark.name
            + "' contains "@ + shown
            + "; only ASCII letters, digits and underscore survive both formats"@,
        problem_text(mark, MarkProblem::Reserved, shown) == "mark name '"@ + mark.name
            + "' is reserved by Word, which rewrites it on save"@,
{
}

// ─── Order ───────────────────────────────────────────────────────────

/// Texts are ordered by the first character in which they differ; a text that another
/// begins with comes before it.
pub proof fn texts_are_ordered_by_their_characters(
    same: Seq<char>,
    a: char,
    x: Seq<char>,
    b: char,
    y: Seq<char>,
)
    ensures
        a != b ==> (precedes(same + seq![a] + x, same + seq![b] + y) <==> (a as u32) < (b as u32)),
        precedes(same, same + seq![a] + x),
        !precedes(same + seq![a] + x, same),
        !precedes(same, same),
    decreases same.len(),
{
    let p = same + seq![a] + x;
    let q = same + seq![b] + y;
    if same.len() > 0 {
        let rest = same.skip(1);
        assert(p[0] == same[0] && q[0] == same[0]);
        assert(p.skip(1) =~= rest + seq![a] + x);
        assert(q.skip(1) =~= rest + seq![b] + y);
        texts_are_ordered_by_their_characters(rest, a, x, b, y);
    } else {
        assert(p[0] == a && q[0] == b);
    }
}

/// In document order a comment comes before another where it starts before it; of two that
/// start alike the one that ends first, and of two over one range the one whose uid comes
/// first.
pub proof fn comments_are_ordered_by_range_and_uid(comments: Seq<CommentModel>, i: int, j: int)
    requires
        is_strictly_in_order::<DocumentComment>(comments),
        0 <= i < j < comments.len(),
    ensures
        ({
            let a = comments[i];
            let b = comments[j];
            ||| a.start < b.start
            ||| a.start == b.start && a.end < b.end
            ||| a.start == b.start && a.end == b.end && precedes(a.uid, b.uid)
        }),
{
}

/// In document order a mark comes before another where it starts before it; of two that
/// start alike the one that ends first, of two over one range the one with the lower
/// ordinal, and last the one whose name comes first.
pub proof fn marks_are_ordered_by_range_and_ordinal(marks: Seq<MarkModel>, i: int, j: int)
    requires
        is_strictly_in_order::<DocumentMark>(marks),
        0 <= i < j < marks.len(),
    ensures
        ({
            let a = marks[i];
            let b = marks[j];
            ||| a.start < b.start
            ||| a.start == b.start && a.end < b.end
            ||| a.start == b.start && a.end == b.end && a.ordinal < b.ordinal
            ||| a.start == b.start && a.end == b.end && a.ordinal == b.ordinal && precedes(
                a.name,
                b.name,
            )
        }),
{
}

proof fn registered_in_order(comments: Seq<CommentModel>)
    ensures
        in_key_order(registered(comments)),
    decreases comments.len(),
{
    if comments.len() > 0 {
        registered_in_order(comments.drop_last());
        with_entry_keeps_key_order(
            registered(comments.drop_last()),
            comments.last().uid,
            comments.last(),
        );
    }
}

/// Of comments that are registered one after the other, the last of a uid is the one that
/// is found under it; where there is none, nothing is.
pub proof fn last_comment_counts(comments: Seq<CommentModel>, uid: Seq<char>, at: int)
    requires
        -1 <= at < comments.len(),
        at >= 0 ==> comments[at].uid == uid,
        forall|j: int| at < j < comments.len() ==> (#[trigger] comments[j]).uid != uid,
    ensures
        at >= 0 ==> lookup(registered(comments), uid) == Some(comments[at]),
        at < 0 ==> lookup(registered(comments), uid) is None,
    decreases comments.len(),
{
    if comments.len() > 0 {
        let rest = comments.drop_last();
        registered_in_order(rest);
        lookup_gives_back_what_was_set(registered(rest), comments.last().uid, comments.last(), uid);
        if at < comments.len() - 1 {
            assert(comments[comments.len() - 1].uid != uid);
            assert forall|j: int| at < j < rest.len() implies (#[trigger] rest[j]).uid != uid by {
                assert(rest[j] == comments[j]);
            }
            last_comment_counts(rest, uid, at);
        }
    }
}

proof fn images_in_order(items: Seq<(Seq<char>, PayloadModel)>)
    ensures
        in_key_order(registered_images(items)),
    decreases items.len(),
{
    if items.len() > 0 {
        images_in_order(items.drop_last());
        with_entry_keeps_key_order(
            registered_images(items.drop_last()),
            items.last().0,
            items.last().1,
        );
    }
}

/// Of images that are registered one after the other, the last of a source is the one that
/// is found under it; where there is none, nothing is.
pub proof fn last_image_counts(items: Seq<(Seq<char>, PayloadModel)>, src: Seq<char>, at: int)
    requires
        -1 <= at < items.len(),
        at >= 0 ==> items[at].0 == src,
        forall|j: int| at < j < items.len() ==> (#[trigger] items[j]).0 != src,
    ensures
        at >= 0 ==> lookup(registered_images(items), src) == Some(items[at].1),
        at < 0 ==> lookup(registered_images(items), src) is None,
    decreases items.len(),
{
    if items.len() > 0 {
        let rest = items.drop_last();
        images_in_order(rest);
        lookup_gives_back_what_was_set(
            registered_images(rest),
            items.last().0,
            items.last().1,
            src,
        );
        if at < items.len() - 1 {
            assert(items[items.len() - 1].0 != src);
            assert forall|j: int| at < j < rest.len() implies (#[trigger] rest[j]).0 != src by {
                assert(rest[j] == items[j]);
            }
            last_image_counts(rest, src, at);
        }
    }
}

// ─── Heading styles ──────────────────────────────────────────────────

/// The conventional ramp has six levels, each bold and kept with what follows it, none with
/// an alignment or a page of its own, at the size and with the space of its level; the last
/// is in italics besides. It is the same for both formats.
pub proof fn ramps_have_six_levels(body: nat, i: int)
    requires
        0 <= i < 6,
    ensures
        docx_ramp(body).len() == 6,
        odt_ramp(body).len() == 6,
        ({
            let style = docx_ramp(body)[i];
            &&& style.size_half_points == Some(
                scaled_size(body, ramp_level(i).scale) as usize,
            )
            &&& style.bold
            &&& style.italic <==> i == 5
            &&& style.alignment is None
            &&& style.space_before_twips == Some(ramp_level(i).before)
            &&& style.space_after_twips == Some(ramp_level(i).after)
            &&& style.keep_with_next
            &&& !style.page_break_before
        }),
        ({
            let style = odt_ramp(body)[i];
            &&& style.size_half_points == docx_ramp(body)[i].size_half_points
            &&& style.bold
            &&& style.italic <==> i == 5
            &&& style.alignment is None
            &&& style.space_before_twips == docx_ramp(body)[i].space_before_twips
            &&& style.space_after_twips == docx_ramp(body)[i].space_after_twips
            &&& style.keep_with_next
            &&& !style.page_break_before
        }),
{
}

// ─── Images ──────────────────────────────────────────────────────────

/// Each media type of an image has the extension of its own, and any other type `bin`.
pub proof fn media_types_have_extensions(mime_type: Seq<char>)
    ensures
        extension_of("image/png"@) == "png"@,
        extension_of("image/jpeg"@) == "jpg"@,
        extension_of("image/webp"@) == "webp"@,
        extension_of("image/gif"@) == "gif"@,
        extension_of("image/svg+xml"@) == "svg"@,
        mime_type != "image/png"@ && mime_type != "image/jpeg"@ && mime_type != "image/webp"@
            && mime_type != "image/gif"@ && mime_type != "image/svg+xml"@ ==> extension_of(
            mime_type,
        ) == "bin"@,
{
    reveal_strlit("image/png");
    reveal_strlit("image/jpeg");
    reveal_strlit("image/webp");
    reveal_strlit("image/gif");
    reveal_strlit("image/svg+xml");
    assert("image/png"@.len() == 9 && "image/png"@[6] == 'p');
    assert("image/jpeg"@.len() == 10 && "image/jpeg"@[6] == 'j');
    assert("image/webp"@.len() == 10 && "image/webp"@[6] == 'w');
    assert("image/gif"@.len() == 9 && "image/gif"@[6] == 'g');
    assert("image/svg+xml"@.len() == 13);
}

/// The six bits that a letter of base64 stands for.
pub open spec fn six_bits(c: char) -> int {
    let code = c as u32;
    if 0x41 <= code <= 0x5A {
        code - 0x41
    } else if 0x61 <= code <= 0x7A {
        code - 0x61 + 26
    } else if 0x30 <= code <= 0x39 {
        code - 0x30 + 52
    } else if c == '+' {
        62
    } else {
        63
    }
}

proof fn letter_has_its_bits(n: int)
    requires
        0 <= n < 64,
    ensures
        six_bits(base64_letter(n)) == n,
        base64_letter(n) != '=',
{
}

/// Each three bytes are four letters, whose six bits each make up the bytes again; what is
/// left over is one group more, filled up with `=`.
pub proof fn letters_make_up_the_bytes(bytes: Seq<u8>)
    ensures
        base64_text(Seq::empty()).len() == 0,
        bytes.len() > 0 ==> {
            let text = base64_text(bytes);
            &&& text.len() >= 4
            &&& text.skip(4) == if bytes.len() > 3 {
                base64_text(bytes.skip(3))
            } else {
                Seq::empty()
            }
            &&& bytes.len() >= 3 ==> {
                &&& six_bits(text[0]) * 0x40000 + six_bits(text[1]) * 0x1000 + six_bits(text[2])
                    * 0x40 + six_bits(text[3]) == bytes[0] * 0x10000 + bytes[1] * 0x100 + bytes[2]
                &&& text[2] != '=' && text[3] != '='
            }
            &&& bytes.len() == 2 ==> {
                &&& six_bits(text[0]) * 0x1000 + six_bits(text[1]) * 0x40 + six_bits(text[2]) == (
                bytes[0] * 0x100 + bytes[1]) * 4
                &&& text[2] != '=' && text[3] == '='
            }
            &&& bytes.len() == 1 ==> {
                &&& six_bits(text[0]) * 0x40 + six_bits(text[1]) == bytes[0] * 0x10
                &&& text[2] == '=' && text[3] == '='
            }
        },
{
    if bytes.len() > 0 {
        let text = base64_text(bytes);
        let a = bytes[0] as int;
        letter_has_its_bits(a / 4);
        if bytes.len() == 1 {
            letter_has_its_bits(a % 4 * 16);
        } else {
            let b = bytes[1] as int;
            letter_has_its_bits(a % 4 * 16 + b / 16);
            if bytes.len() == 2 {
                letter_has_its_bits(b % 16 * 4);
            } else {
                let c = bytes[2] as int;
                letter_has_its_bits(b % 16 * 4 + c / 64);
                letter_has_its_bits(c % 64);
            }
        }
        if bytes.len() > 3 {
            assert(text.skip(4) =~= base64_text(bytes.skip(3)));
        } else {
            assert(text.skip(4) =~= Seq::<char>::empty());
        }
    }
}

// ─── Defaults ────────────────────────────────────────────────────────

/// Options that override nothing leave every choice to the reader: no size, margin, font or
/// spacing, no justification and no page numbers, no headings of their own, and nothing to
/// anchor.
pub proof fn nothing_is_overridden(docx: DocxExportOptions, odt: OdtExportOptions)
    requires
        docx_overrides_nothing(docx),
        odt_overrides_nothing(odt),
    ensures
        docx.page_width_twips is None && docx.page_height_twips is None,
        docx.margin_top_twips is None && docx.margin_bottom_twips is None,
        docx.margin_left_twips is None && docx.margin_right_twips is None,
        docx.font_family is None && docx.font_half_points is None,
        docx.line_spacing_twips is None && docx.first_line_indent_twips is None,
        docx.paragraph_spacing_after_twips is None,
        !docx.justify && !docx.page_numbers && docx.running_header is None,
        docx.heading_styles@.len() == 0,
        docx.images.deep_view().len() == 0,
        docx.comments.deep_view().len() == 0,
        docx.marks.deep_view().len() == 0,
        odt.page_width_twips is None && odt.page_height_twips is None,
        odt.margin_top_twips is None && odt.margin_bottom_twips is None,
        odt.margin_left_twips is None && odt.margin_right_twips is None,
        odt.font_family is None && odt.font_half_points is None,
        odt.line_spacing_twips is None && odt.first_line_indent_twips is None,
        odt.paragraph_spacing_after_twips is None,
        !odt.justify && !odt.page_numbers && odt.running_header is None,
        odt.heading_styles@.len() == 0,
        odt.images.deep_view().len() == 0,
        odt.comments.deep_view().len() == 0,
{
}

/// A page break is a form feed in plain text; in markup it is a style that names the
/// property of both versions of CSS.
pub proof fn page_breaks_are_spelled()
    ensures
        FORM_FEED as u32 == 0x0C,
        HTML_PAGE_BREAK_STYLE@ == "break-before: page"@ + "; "@ + "page-break-before: always"@
            + ";"@,
{
    reveal_strlit("break-before: page");
    reveal_strlit("; ");
    reveal_strlit("page-break-before: always");
    reveal_strlit(";");
    reveal_strlit("break-before: page; page-break-before: always;");
    assert(HTML_PAGE_BREAK_STYLE@ =~= "break-before: page"@ + "; "@ + "page-break-before: always"@
        + ";"@);
}

} // verus!
