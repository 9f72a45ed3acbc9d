//! Named marks a writer anchors into its output as **bookmarks**.
//!
//! A host that exports a document for someone else to edit, and later reads the
//! edited file back, needs to know which part of the returned file corresponds to
//! which part of its own model. A private attribute does not survive: word
//! processors discard unknown-namespace attributes when they save. A bookmark
//! does survive, so identity travels as a bookmark, and this is the payload that
//! carries it.
//!
//! A mark with `start == end` is a **point**: it names a position and nothing
//! else. A mark with `start < end` is a **range**.
//!
//! The name is the only thing that comes back, so it is where the host's identity
//! has to live. [`DocumentMark::validate`] enforces the intersection of what the
//! two formats accept, which is really just what *Word* accepts: 40 characters,
//! ASCII alphanumerics and underscore, leading letter or underscore.
use vstd::prelude::*;

use crate::chars::{decimal_text, digits_of, lowered, same_but_case};
use crate::models::group_deep_view;
use crate::order::{
    document_order, document_order_is_strict, found_under_own_name, in_order, is_strictly_in_order,
    lookup, own_names_are_kept, relation, under_own_names, values_of, with_entry, DocumentPlace,
    Place, Placed, TextMap,
};
use crate::text::{byte_len, to_chars, IntoText};

verus! {

broadcast use group_deep_view;

/// Word's cap on the length of a bookmark name. Names longer than this are truncated or dropped
/// by Word without a diagnostic, which is exactly the failure this payload exists to avoid.
pub const MAX_BOOKMARK_NAME_LEN: usize = 40;

/// Bookmark names Word reserves for itself.
///
/// Legal by every syntactic rule and unusable all the same: Word maintains these, so a
/// mark carrying one is not stored where it was put.
pub const RESERVED_BOOKMARK_NAMES: [&'static str; 5] = [
    "_GoBack",
    "_Toc",
    "_Ref",
    "_Hlk",
    "_MailAutoSig",
];

/// What a [`DocumentMark`] holds.
#[verifier::ext_equal]
pub struct MarkModel {
    pub start: int,
    pub end: int,
    pub name: Seq<char>,
    pub ordinal: int,
}

/// One named position or range in the document's addressable character space.
#[derive(Clone, Debug, PartialEq, Eq)]
pub struct DocumentMark {
    /// `[start, end)` in the document's **addressable** character space.
    /// `start == end` is a point mark.
    pub start: u32,
    pub end: u32,
    /// The bookmark name, which is the whole message. See [`validate`](Self::validate).
    pub name: String,
    /// Which of several marks sharing this exact range comes first.
    ///
    /// Zero for every mark that does not share its range with another. It exists
    /// because ties have to break the **same way** on the marks and on the comments
    /// whose identity they carry: the producer knows the intended order and nothing
    /// else can recover it, so the producer says.
    pub ordinal: u32,
}

impl DeepView for DocumentMark {
    type V = MarkModel;

    open spec fn deep_view(&self) -> MarkModel {
        MarkModel {
            start: self.start as int,
            end: self.end as int,
            name: self.name@,
            ordinal: self.ordinal as int,
        }
    }
}

impl Default for DocumentMark {
    fn default() -> (mark: Self)
        ensures
            mark.deep_view() == (MarkModel { start: 0, end: 0, name: Seq::empty(), ordinal: 0 }),
    {
        let mark = DocumentMark { start: 0, end: 0, name: String::new(), ordinal: 0 };
        assert(mark.name@ =~= Seq::<char>::empty());
        mark
    }
}

/// Whether a character may stand in a bookmark name.
pub open spec fn name_char(c: char) -> bool {
    ('a' <= c <= 'z') || ('A' <= c <= 'Z') || ('0' <= c <= '9') || c == '_'
}

/// Whether a bookmark name may begin with a character.
pub open spec fn name_start(c: char) -> bool {
    ('a' <= c <= 'z') || ('A' <= c <= 'Z') || c == '_'
}

/// The first character of a name, from `i` on, that may not stand in one.
pub open spec fn bad_char(name: Seq<char>, i: int) -> Option<char>
    decreases name.len() - i,
{
    if i < 0 || i >= name.len() {
        None
    } else if name_char(name[i]) {
        bad_char(name, i + 1)
    } else {
        Some(name[i])
    }
}

/// Whether a name is one that Word reserves, whatever the case of its letters.
pub open spec fn is_reserved(name: Seq<char>) -> bool {
    ||| lowered(name) == lowered("_GoBack"@)
    ||| lowered(name) == lowered("_Toc"@)
    ||| lowered(name) == lowered("_Ref"@)
    ||| lowered(name) == lowered("_Hlk"@)
    ||| lowered(name) == lowered("_MailAutoSig"@)
}

/// What is wrong with a mark, in the order in which it is asked.
pub enum MarkProblem {
    Inverted,
    NoName,
    TooLong,
    BadStart,
    BadChar(char),
    Reserved,
}

/// The first thing that is wrong with a mark.
pub open spec fn mark_problem(mark: MarkModel) -> Option<MarkProblem> {
    if mark.end < mark.start {
        Some(MarkProblem::Inverted)
    } else if mark.name.len() == 0 {
        Some(MarkProblem::NoName)
    } else if byte_len(mark.name) > MAX_BOOKMARK_NAME_LEN {
        Some(MarkProblem::TooLong)
    } else if !name_start(mark.name[0]) {
        Some(MarkProblem::BadStart)
    } else if bad_char(mark.name, 0) is Some {
        Some(MarkProblem::BadChar(bad_char(mark.name, 0)->0))
    } else if is_reserved(mark.name) {
        Some(MarkProblem::Reserved)
    } else {
        None
    }
}

/// A character as a debug print shows it.
pub uninterp spec fn debug_char(c: char) -> Seq<char>;

/// Prints a character with `core::fmt::Debug for char`. The contract claims that
/// the print is a function of the character, named by [`debug_char`].
#[verifier::external_body]
fn print_char(c: char) -> (text: String)
    ensures
        text@ == debug_char(c),
{
    format!("{c:?}")
}

/// The description of a problem, a bad character shown as `shown`.
pub open spec fn problem_text(mark: MarkModel, problem: MarkProblem, shown: Seq<char>) -> Seq<char> {
    match problem {
        MarkProblem::Inverted => "mark '"@ + mark.name + "' ends ("@ + digits_of(mark.end as nat)
            + ") before it starts ("@ + digits_of(mark.start as nat) + ")"@,
        MarkProblem::NoName => "a mark with an empty name carries no identity"@,
        MarkProblem::TooLong => "mark name '"@ + mark.name + "' is "@ + digits_of(
            byte_len(mark.name),
        ) + " characters; Word drops anything over 40"@,
        MarkProblem::BadStart => "mark name '"@ + mark.name
            + "' must begin with a letter or underscore"@,
        MarkProblem::BadChar(_) => "mark name '"@ + mark.name + "' contains "@ + shown
            + "; only ASCII letters, digits and underscore survive both formats"@,
        MarkProblem::Reserved => "mark name '"@ + mark.name
            + "' is reserved by Word, which rewrites it on save"@,
    }
}

/// The description of what is wrong with a mark, if anything is.
pub open spec fn mark_report(mark: MarkModel) -> Option<Seq<char>> {
    match mark_problem(mark) {
        None => None,
        Some(MarkProblem::BadChar(c)) => Some(
            problem_text(mark, MarkProblem::BadChar(c), debug_char(c)),
        ),
        Some(problem) => Some(problem_text(mark, problem, Seq::empty())),
    }
}

/// The report of a character that may not stand in a name, shown as `shown`.
pub fn bad_char_report(name: &str, shown: &str) -> (report: String)
    ensures
        report@ == "mark name '"@ + name@ + "' contains "@ + shown@
            + "; only ASCII letters, digits and underscore survive both formats"@,
{
    let mut report = "mark name '".to_string();
    report.push_str(name);
    report.push_str("' contains ");
    report.push_str(shown);
    report.push_str("; only ASCII letters, digits and underscore survive both formats");
    report
}

/// A report of a name.
fn name_report(name: &str, fault: &str) -> (report: String)
    ensures
        report@ == "mark name '"@ + name@ + fault@,
{
    let mut report = "mark name '".to_string();
    report.push_str(name);
    report.push_str(fault);
    report
}

/// The first character that may not stand in a name.
fn find_bad_char(name: &Vec<char>) -> (bad: Option<char>)
    ensures
        bad == bad_char(name@, 0),
{
    for i in 0..name.len()
        invariant
            bad_char(name@, 0) == bad_char(name@, i as int),
    {
        let c = name[i];
        if !(('a' <= c && c <= 'z') || ('A' <= c && c <= 'Z') || ('0' <= c && c <= '9') || c == '_') {
            return Some(c);
        }
    }
    None
}

/// Whether a name is one that Word reserves.
fn is_reserved_name(name: &Vec<char>) -> (reserved: bool)
    ensures
        reserved == is_reserved(name@),
{
    let names: [&'static str; 5] = RESERVED_BOOKMARK_NAMES;
    for i in 0..5
        invariant
            names@.len() == 5,
            names@[0]@ == "_GoBack"@,
            names@[1]@ == "_Toc"@,
            names@[2]@ == "_Ref"@,
            names@[3]@ == "_Hlk"@,
            names@[4]@ == "_MailAutoSig"@,
            forall|j: int| 0 <= j < i ==> lowered(name@) != lowered(#[trigger] names@[j]@),
    {
        if same_but_case(name.as_slice(), to_chars(names[i]).as_slice()) {
            return true;
        }
    }
    assert(lowered(name@) != lowered(names@[0]@));
    assert(lowered(name@) != lowered(names@[1]@));
    assert(lowered(name@) != lowered(names@[2]@));
    assert(lowered(name@) != lowered(names@[3]@));
    assert(lowered(name@) != lowered(names@[4]@));
    false
}

impl DocumentMark {
    /// A point mark at `at`.
    pub fn point<S: IntoText>(at: u32, name: S) -> (mark: Self)
        ensures
            mark.deep_view() == (MarkModel {
                start: at as int,
                end: at as int,
                name: name.text(),
                ordinal: 0,
            }),
    {
        DocumentMark { start: at, end: at, name: name.into_text(), ordinal: 0 }
    }

    /// A range mark over `[start, end)`.
    pub fn range<S: IntoText>(start: u32, end: u32, name: S) -> (mark: Self)
        ensures
            mark.deep_view() == (MarkModel {
                start: start as int,
                end: end as int,
                name: name.text(),
                ordinal: 0,
            }),
    {
        DocumentMark { start, end, name: name.into_text(), ordinal: 0 }
    }

    /// This mark, ordered ahead of or behind others sharing its exact range.
    ///
    /// See [`ordinal`](Self::ordinal): required only when two marks can span the same
    /// characters.
    pub fn with_ordinal(self, ordinal: u32) -> (mark: Self)
        ensures
            mark.deep_view() == (MarkModel { ordinal: ordinal as int, ..self.deep_view() }),
    {
        let mut mark = self;
        mark.ordinal = ordinal;
        mark
    }

    /// True when this mark names a position rather than a span.
    pub fn is_point(&self) -> (point: bool)
        ensures
            point == (self.deep_view().start == self.deep_view().end),
    {
        self.start == self.end
    }

    /// Check the name against the stricter of the two formats' rules, and the range against
    /// itself.
    ///
    /// Returns a description of the problem rather than a bool, because every caller of this
    /// wants to say what was wrong.
    pub fn validate(&self) -> (res: Result<(), String>)
        ensures
            match res {
                Ok(_) => mark_report(self.deep_view()) is None,
                Err(report) => mark_report(self.deep_view()) == Some(report@),
            },
            res is Ok <==> mark_problem(self.deep_view()) is None,
    {
        let name = self.name.as_str();
        let chars = to_chars(name);
        if self.end < self.start {
            let mut report = "mark '".to_string();
            report.push_str(name);
            report.push_str("' ends (");
            report.push_str(decimal_text(self.end as u64).as_str());
            report.push_str(") before it starts (");
            report.push_str(decimal_text(self.start as u64).as_str());
            report.push_str(")");
            return Err(report);
        }
        if chars.len() == 0 {
            return Err("a mark with an empty name carries no identity".to_string());
        }
        let len: usize = name.as_bytes().len();
        if len > MAX_BOOKMARK_NAME_LEN {
            let mut report = name_report(name, "' is ");
            report.push_str(decimal_text(len as u64).as_str());
            report.push_str(" characters; Word drops anything over 40");
            return Err(report);
        }
        let first = chars[0];
        if !(('a' <= first && first <= 'z') || ('A' <= first && first <= 'Z') || first == '_') {
            return Err(name_report(name, "' must begin with a letter or underscore"));
        }
        if let Some(bad) = find_bad_char(&chars) {
            let shown = print_char(bad);
            return Err(bad_char_report(name, shown.as_str()));
        }
        if is_reserved_name(&chars) {
            return Err(name_report(name, "' is reserved by Word, which rewrites it on save"));
        }
        Ok(())
    }
}

impl Placed for DocumentMark {
    open spec fn place(model: MarkModel) -> DocumentPlace {
        DocumentPlace {
            start: model.start,
            end: model.end,
            ordinal: model.ordinal,
            name: model.name,
        }
    }

    fn is_before(&self, other: &Self) -> (before: bool) {
        if self.start != other.start {
            self.start < other.start
        } else if self.end != other.end {
            self.end < other.end
        } else if self.ordinal != other.ordinal {
            self.ordinal < other.ordinal
        } else {
            proof {
                crate::order::precedes_is_total(self.name@, other.name@);
            }
            relation(self.name.as_str(), other.name.as_str()) == Place::Before
        }
    }

    fn copy(&self) -> (copy: Self) {
        DocumentMark {
            start: self.start,
            end: self.end,
            name: self.name.clone(),
            ordinal: self.ordinal,
        }
    }
}

/// Every mark supplied to one export, keyed by name.
///
/// In the order of the names, because two exports of the same document must be
/// byte-comparable. Keying by name also makes the uniqueness the formats require
/// structural: a bookmark name may appear only once in a document.
#[derive(Debug, PartialEq, Eq)]
pub struct DocumentMarks {
    marks: TextMap<DocumentMark>,
}

impl DeepView for DocumentMarks {
    type V = Seq<(Seq<char>, MarkModel)>;

    closed spec fn deep_view(&self) -> Seq<(Seq<char>, MarkModel)> {
        self.marks.deep_view()
    }
}

impl DocumentMarks {
    /// Each mark stands under its own name.
    #[verifier::type_invariant]
    spec fn own_names(self) -> bool {
        under_own_names::<DocumentMark>(self.marks.deep_view())
    }
}

impl Clone for DocumentMarks {
    fn clone(&self) -> (copy: Self)
        ensures
            copy.deep_view() == self.deep_view(),
    {
        proof {
            use_type_invariant(self);
        }
        DocumentMarks { marks: self.marks.copied() }
    }
}

impl Default for DocumentMarks {
    fn default() -> (marks: Self)
        ensures
            marks.deep_view() == Seq::<(Seq<char>, MarkModel)>::empty(),
    {
        DocumentMarks { marks: TextMap::new() }
    }
}

/// The reports on marks that have one, in order.
pub open spec fn mark_reports(marks: Seq<MarkModel>) -> Seq<Seq<char>>
    decreases marks.len(),
{
    if marks.len() == 0 {
        Seq::empty()
    } else {
        let rest = mark_reports(marks.drop_last());
        match mark_report(marks.last()) {
            Some(report) => rest.push(report),
            None => rest,
        }
    }
}

/// Reports, with a semicolon and a space between each two.
pub open spec fn listed(reports: Seq<Seq<char>>) -> Seq<char>
    decreases reports.len(),
{
    if reports.len() == 0 {
        Seq::empty()
    } else if reports.len() == 1 {
        reports[0]
    } else {
        listed(reports.drop_last()) + "; "@ + reports.last()
    }
}

impl DocumentMarks {
    pub fn new() -> (marks: Self)
        ensures
            marks.deep_view() == Seq::<(Seq<char>, MarkModel)>::empty(),
    {
        DocumentMarks { marks: TextMap::new() }
    }

    /// Register a mark, keyed by its own name. A second insert under the same name replaces the
    /// first.
    pub fn insert(&mut self, mark: DocumentMark) -> (same: &mut Self)
        ensures
            same.deep_view() == with_entry(
                old(self).deep_view(),
                mark.deep_view().name,
                mark.deep_view(),
            ),
            under_own_names::<DocumentMark>(old(self).deep_view()),
            under_own_names::<DocumentMark>(same.deep_view()),
            *final(self) == *final(same),
    {
        proof {
            use_type_invariant(&*self);
            own_names_are_kept::<DocumentMark>(self.deep_view(), mark.deep_view());
        }
        let mut marks: TextMap<DocumentMark> = TextMap::new();
        std::mem::swap(&mut self.marks, &mut marks);
        marks.insert(mark.name.clone(), mark);
        self.marks = marks;
        self
    }

    /// The mark of a name.
    pub fn get(&self, name: &str) -> (mark: Option<&DocumentMark>)
        ensures
            mark.deep_view() == lookup(self.deep_view(), name@),
            under_own_names::<DocumentMark>(self.deep_view()),
            mark matches Some(found) ==> found.deep_view().name == name@,
    {
        proof {
            use_type_invariant(self);
            found_under_own_name::<DocumentMark>(self.deep_view(), name@);
        }
        self.marks.get(name)
    }

    /// The marks, in the order of their names.
    pub fn iter(&self) -> (marks: Vec<&DocumentMark>)
        ensures
            marks.deep_view() == values_of(self.deep_view()),
            under_own_names::<DocumentMark>(self.deep_view()),
    {
        proof {
            use_type_invariant(self);
        }
        self.marks.values()
    }

    /// Whether there is no mark.
    pub fn is_empty(&self) -> (empty: bool)
        ensures
            empty == (self.deep_view().len() == 0),
    {
        self.marks.len() == 0
    }

    /// The number of marks.
    pub fn len(&self) -> (n: usize)
        ensures
            n == self.deep_view().len(),
    {
        self.marks.len()
    }

    /// Every mark, sorted by `(start, end, ordinal, name)`: the order a writer walking the
    /// document front-to-back opens and closes them in. The name is the last resort.
    pub fn in_document_order(&self) -> (marks: Vec<&DocumentMark>)
        ensures
            marks.deep_view() == document_order::<DocumentMark>(values_of(self.deep_view())),
            under_own_names::<DocumentMark>(self.deep_view()),
            is_strictly_in_order::<DocumentMark>(marks.deep_view()),
            marks.deep_view().to_multiset() == values_of(self.deep_view()).to_multiset(),
    {
        proof {
            use_type_invariant(self);
            document_order_is_strict::<DocumentMark>(self.deep_view());
        }
        in_order(self.marks.values())
    }

    /// Validate every mark, reporting all the problems rather than the first: a caller fixing
    /// a name-generation bug wants the whole list, not one round trip per offender.
    pub fn validate(&self) -> (res: Result<(), String>)
        ensures
            match res {
                Ok(_) => mark_reports(values_of(self.deep_view())).len() == 0,
                Err(report) => {
                    &&& mark_reports(values_of(self.deep_view())).len() > 0
                    &&& report@ == listed(mark_reports(values_of(self.deep_view())))
                },
            },
    {
        let marks = self.marks.values();
        let ghost all = values_of(self.deep_view());
        let mut report = String::new();
        let mut count: usize = 0;
        assert(report@ =~= listed(Seq::empty()));
        for i in 0..marks.len()
            invariant
                all == marks.deep_view(),
                count <= i,
                count == mark_reports(all.take(i as int)).len(),
                report@ == listed(mark_reports(all.take(i as int))),
        {
            let ghost found = mark_reports(all.take(i as int));
            proof {
                assert(all.take(i + 1).drop_last() =~= all.take(i as int));
                assert(all.take(i + 1).last() == marks@[i as int].deep_view());
            }
            if let Err(problem) = marks[i].validate() {
                if count > 0 {
                    report.push_str("; ");
                }
                report.push_str(problem.as_str());
                count += 1;
                proof {
                    assert(found.push(problem@).drop_last() =~= found);
                    assert(report@ =~= listed(found.push(problem@)));
                }
            }
        }
        assert(all.take(all.len() as int) =~= all);
        if count == 0 {
            Ok(())
        } else {
            Err(report)
        }
    }
}

} // verus!
