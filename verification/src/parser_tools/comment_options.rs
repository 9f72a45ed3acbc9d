//! Comment payload shared by every writer that can anchor a margin note into its
//! output.
//!
//! [`DocumentComment::start`]/[`DocumentComment::end`] are `[start, end)` in the
//! document's own **addressable character space** (see
//! [`crate::inline_pieces::AddressableInlinePiece`]). A writer splitting a run at a
//! comment boundary must resolve that boundary against addressable pieces, never
//! against the block-local UTF-8 *byte* offsets of a format run.
use vstd::prelude::*;

use crate::models::group_deep_view;
use crate::order::{
    document_order, document_order_is_strict, found_under_own_name, in_order, is_strictly_in_order,
    lookup, own_names_are_kept, relation, under_own_names, values_of, with_entry, DocumentPlace,
    Place, Placed, TextMap,
};

verus! {

broadcast use group_deep_view;

/// What a [`CommentReply`] holds.
#[verifier::ext_equal]
pub struct ReplyModel {
    pub uid: Seq<char>,
    pub author: Seq<char>,
    pub author_initials: Seq<char>,
    pub date: Seq<char>,
    pub body: Seq<char>,
}

/// One reply in a comment's thread.
///
/// A reply carries no range of its own: it anchors to the exact same span as the
/// comment it answers.
#[derive(Clone, Debug, PartialEq, Eq)]
pub struct CommentReply {
    /// Durable identifier, stable across a save/reload round trip: never a store id
    /// or a document position.
    pub uid: String,
    pub author: String,
    pub author_initials: String,
    /// ISO-8601 (e.g. `"2026-08-09T12:00:00Z"`).
    pub date: String,
    /// Djot source.
    pub body: String,
}

impl DeepView for CommentReply {
    type V = ReplyModel;

    open spec fn deep_view(&self) -> ReplyModel {
        ReplyModel {
            uid: self.uid@,
            author: self.author@,
            author_initials: self.author_initials@,
            date: self.date@,
            body: self.body@,
        }
    }
}

impl Default for CommentReply {
    fn default() -> (reply: Self)
        ensures
            reply.uid@.len() == 0,
            reply.author@.len() == 0,
            reply.author_initials@.len() == 0,
            reply.date@.len() == 0,
            reply.body@.len() == 0,
    {
        CommentReply {
            uid: String::new(),
            author: String::new(),
            author_initials: String::new(),
            date: String::new(),
            body: String::new(),
        }
    }
}

/// What a [`DocumentComment`] holds.
#[verifier::ext_equal]
pub struct CommentModel {
    pub start: int,
    pub end: int,
    pub uid: Seq<char>,
    pub author: Seq<char>,
    pub author_initials: Seq<char>,
    pub date: Seq<char>,
    pub resolved: bool,
    pub body: Seq<char>,
    pub replies: Seq<ReplyModel>,
}

/// One comment thread: an opening note anchored to a character range, plus its flat list of
/// replies.
///
/// Flat, not a tree: neither of the formats that carry comments nests a reply
/// under another reply.
#[derive(Clone, Debug, PartialEq, Eq)]
pub struct DocumentComment {
    /// `[start, end)` in the document's addressable character space. `start == end` anchors
    /// the comment to a single insertion point rather than a highlighted run.
    pub start: u32,
    pub end: u32,
    /// Durable identifier: see [`CommentReply::uid`].
    pub uid: String,
    pub author: String,
    pub author_initials: String,
    /// ISO-8601 (e.g. `"2026-08-09T12:00:00Z"`).
    pub date: String,
    /// Whether the thread is marked resolved. Resolving a thread does not delete it.
    pub resolved: bool,
    /// Djot source: see [`CommentReply::body`].
    pub body: String,
    pub replies: Vec<CommentReply>,
}

impl DeepView for DocumentComment {
    type V = CommentModel;

    open spec fn deep_view(&self) -> CommentModel {
        CommentModel {
            start: self.start as int,
            end: self.end as int,
            uid: self.uid@,
            author: self.author@,
            author_initials: self.author_initials@,
            date: self.date@,
            resolved: self.resolved,
            body: self.body@,
            replies: self.replies.deep_view(),
        }
    }
}

impl Default for DocumentComment {
    fn default() -> (comment: Self)
        ensures
            comment.start == 0,
            comment.end == 0,
            comment.uid@.len() == 0,
            comment.author@.len() == 0,
            comment.author_initials@.len() == 0,
            comment.date@.len() == 0,
            !comment.resolved,
            comment.body@.len() == 0,
            comment.replies@.len() == 0,
    {
        DocumentComment {
            start: 0,
            end: 0,
            uid: String::new(),
            author: String::new(),
            author_initials: String::new(),
            date: String::new(),
            resolved: false,
            body: String::new(),
            replies: Vec::new(),
        }
    }
}

impl Placed for DocumentComment {
    open spec fn place(model: CommentModel) -> DocumentPlace {
        DocumentPlace { start: model.start, end: model.end, ordinal: 0, name: model.uid }
    }

    fn is_before(&self, other: &Self) -> (before: bool) {
        if self.start != other.start {
            self.start < other.start
        } else if self.end != other.end {
            self.end < other.end
        } else {
            proof {
                crate::order::precedes_is_total(self.uid@, other.uid@);
            }
            relation(self.uid.as_str(), other.uid.as_str()) == Place::Before
        }
    }

    fn copy(&self) -> (copy: Self) {
        copy_comment(self)
    }
}

/// Every comment thread supplied to one export, keyed by [`DocumentComment::uid`].
///
/// In the order of the uids, because two exports of the same document must be
/// byte-comparable. That is *not* the order a writer needs to open and close
/// ranges in as it walks the document front to back: use
/// [`in_document_order`](Self::in_document_order) for that.
#[derive(Debug, PartialEq, Eq)]
pub struct DocumentComments {
    comments: TextMap<DocumentComment>,
}

impl DeepView for DocumentComments {
    type V = Seq<(Seq<char>, CommentModel)>;

    closed spec fn deep_view(&self) -> Seq<(Seq<char>, CommentModel)> {
        self.comments.deep_view()
    }
}

impl DocumentComments {
    /// Each comment stands under its own uid.
    #[verifier::type_invariant]
    spec fn own_names(self) -> bool {
        under_own_names::<DocumentComment>(self.comments.deep_view())
    }
}

impl Clone for DocumentComments {
    fn clone(&self) -> (copy: Self)
        ensures
            copy.deep_view() == self.deep_view(),
    {
        proof {
            use_type_invariant(self);
        }
        DocumentComments { comments: self.comments.copied() }
    }
}

impl Default for DocumentComments {
    fn default() -> (comments: Self)
        ensures
            comments.deep_view() == Seq::<(Seq<char>, CommentModel)>::empty(),
    {
        DocumentComments { comments: TextMap::new() }
    }
}

/// Comments registered one after the other.
pub open spec fn registered(comments: Seq<CommentModel>) -> Seq<(Seq<char>, CommentModel)>
    decreases comments.len(),
{
    if comments.len() == 0 {
        Seq::empty()
    } else {
        with_entry(registered(comments.drop_last()), comments.last().uid, comments.last())
    }
}

impl DocumentComments {
    pub fn new() -> (comments: Self)
        ensures
            comments.deep_view() == Seq::<(Seq<char>, CommentModel)>::empty(),
    {
        DocumentComments { comments: TextMap::new() }
    }

    /// Register a comment, keyed by its own `uid`. A second insert under the same uid
    /// replaces the first.
    pub fn insert(&mut self, comment: DocumentComment) -> (same: &mut Self)
        ensures
            same.deep_view() == with_entry(
                old(self).deep_view(),
                comment.deep_view().uid,
                comment.deep_view(),
            ),
            under_own_names::<DocumentComment>(old(self).deep_view()),
            under_own_names::<DocumentComment>(same.deep_view()),
            *final(self) == *final(same),
    {
        proof {
            use_type_invariant(&*self);
            own_names_are_kept::<DocumentComment>(self.deep_view(), comment.deep_view());
        }
        let mut comments: TextMap<DocumentComment> = TextMap::new();
        std::mem::swap(&mut self.comments, &mut comments);
        comments.insert(comment.uid.clone(), comment);
        self.comments = comments;
        self
    }

    /// The comments of a list, registered one after the other.
    pub fn from_iter(items: Vec<DocumentComment>) -> (comments: Self)
        ensures
            comments.deep_view() == registered(items.deep_view()),
            under_own_names::<DocumentComment>(comments.deep_view()),
    {
        let ghost all = items.deep_view();
        let mut comments = DocumentComments::new();
        for i in 0..items.len()
            invariant
                all == items.deep_view(),
                comments.deep_view() == registered(all.take(i as int)),
                under_own_names::<DocumentComment>(comments.deep_view()),
        {
            let comment = copy_comment(&items[i]);
            proof {
                assert(all.take(i + 1).drop_last() =~= all.take(i as int));
                assert(all.take(i + 1).last() == comment.deep_view());
            }
            comments.insert(comment);
        }
        assert(all.take(all.len() as int) =~= all);
        comments
    }

    /// The comment of a uid.
    pub fn get(&self, uid: &str) -> (comment: Option<&DocumentComment>)
        ensures
            comment.deep_view() == lookup(self.deep_view(), uid@),
            under_own_names::<DocumentComment>(self.deep_view()),
            comment matches Some(found) ==> found.deep_view().uid == uid@,
    {
        proof {
            use_type_invariant(self);
            found_under_own_name::<DocumentComment>(self.deep_view(), uid@);
        }
        self.comments.get(uid)
    }

    /// The comments, in the order of their uids.
    pub fn iter(&self) -> (comments: Vec<&DocumentComment>)
        ensures
            comments.deep_view() == values_of(self.deep_view()),
            under_own_names::<DocumentComment>(self.deep_view()),
    {
        proof {
            use_type_invariant(self);
        }
        self.comments.values()
    }

    /// Whether there is no comment.
    pub fn is_empty(&self) -> (empty: bool)
        ensures
            empty == (self.deep_view().len() == 0),
    {
        self.comments.len() == 0
    }

    /// The number of comments.
    pub fn len(&self) -> (n: usize)
        ensures
            n == self.deep_view().len(),
    {
        self.comments.len()
    }

    /// Every comment, sorted by `(start, end, uid)`: the order a writer walking the document
    /// text front-to-back needs to open and close ranges in. `uid` breaks an exact
    /// `(start, end)` tie deterministically.
    pub fn in_document_order(&self) -> (comments: Vec<&DocumentComment>)
        ensures
            comments.deep_view() == document_order::<DocumentComment>(values_of(self.deep_view())),
            under_own_names::<DocumentComment>(self.deep_view()),
            is_strictly_in_order::<DocumentComment>(comments.deep_view()),
            comments.deep_view().to_multiset() == values_of(self.deep_view()).to_multiset(),
    {
        proof {
            use_type_invariant(self);
            document_order_is_strict::<DocumentComment>(self.deep_view());
        }
        in_order(self.comments.values())
    }
}

/// A copy of a comment.
fn copy_comment(comment: &DocumentComment) -> (copy: DocumentComment)
    ensures
        copy.deep_view() == comment.deep_view(),
{
    let ghost all = comment.replies.deep_view();
    let mut replies: Vec<CommentReply> = Vec::new();
    for i in 0..comment.replies.len()
        invariant
            all == comment.replies.deep_view(),
            replies.deep_view() == all.take(i as int),
    {
        let reply = &comment.replies[i];
        let copy = CommentReply {
            uid: reply.uid.clone(),
            author: reply.author.clone(),
            author_initials: reply.author_initials.clone(),
            date: reply.date.clone(),
            body: reply.body.clone(),
        };
        replies.push(copy);
        assert(copy.deep_view() == all[i as int]);
        assert(all.take(i + 1) =~= all.take(i as int).push(all[i as int]));
    }
    assert(all.take(all.len() as int) =~= all);
    DocumentComment {
        start: comment.start,
        end: comment.end,
        uid: comment.uid.clone(),
        author: comment.author.clone(),
        author_initials: comment.author_initials.clone(),
        date: comment.date.clone(),
        resolved: comment.resolved,
        body: comment.body.clone(),
        replies,
    }
}

} // verus!
