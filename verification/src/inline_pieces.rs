//! The inline objects of a block, and the weave of its text, formats and objects
//! into one ordered stream.
use vstd::prelude::*;
use vstd::utf8::encode_utf8;

use crate::entities::{CharVerticalAlignment, UnderlineStyle};
use crate::format_runs::{plain_format, CharacterFormat, FormatModel, FormatRun, RunModel};
use crate::models::group_deep_view;
use crate::text::{
    byte_len, byte_len_push, byte_slice, char_bytes, cut_in_range, is_cut, prefix_within,
    slice_bytes, to_chars,
};

verus! {

broadcast use group_deep_view;

/// What an [`InlineContent`] holds.
#[verifier::ext_equal]
pub enum ContentModel {
    Empty,
    Text(Seq<char>),
    FootnoteRef { label: Seq<char> },
    Image { name: Seq<char>, alt: Seq<char>, width: i64, height: i64, quality: i64 },
}

/// Content type for an inline segment: text, image, footnote reference, or empty.
#[derive(Debug, PartialEq, Eq)]
pub enum InlineContent {
    Empty,
    Text(String),
    /// A footnote reference: the marker in the prose that points at a note.
    ///
    /// Carries only the **label**, never the number a reader sees. The number is
    /// a fact about document order, so renderers derive it and the model never
    /// knows it. The label need not resolve.
    FootnoteRef { label: String },
    Image {
        name: String,
        /// Alternative text describing the image.
        alt: String,
        width: i64,
        height: i64,
        quality: i64,
    },
}

impl DeepView for InlineContent {
    type V = ContentModel;

    open spec fn deep_view(&self) -> ContentModel {
        match *self {
            InlineContent::Empty => ContentModel::Empty,
            InlineContent::Text(text) => ContentModel::Text(text@),
            InlineContent::FootnoteRef { label } => ContentModel::FootnoteRef { label: label@ },
            InlineContent::Image { name, alt, width, height, quality } => ContentModel::Image {
                name: name@,
                alt: alt@,
                width,
                height,
                quality,
            },
        }
    }
}

impl Clone for InlineContent {
    fn clone(&self) -> (copy: Self)
        ensures
            copy.deep_view() == self.deep_view(),
    {
        match self {
            InlineContent::Empty => InlineContent::Empty,
            InlineContent::Text(text) => InlineContent::Text(text.clone()),
            InlineContent::FootnoteRef { label } => InlineContent::FootnoteRef {
                label: label.clone(),
            },
            InlineContent::Image { name, alt, width, height, quality } => InlineContent::Image {
                name: name.clone(),
                alt: alt.clone(),
                width: *width,
                height: *height,
                quality: *quality,
            },
        }
    }
}

impl Default for InlineContent {
    fn default() -> (content: Self)
        ensures
            content.deep_view() == ContentModel::Empty,
    {
        InlineContent::Empty
    }
}

/// A content and the format it wears.
#[verifier::ext_equal]
pub struct SegmentModel {
    pub content: ContentModel,
    pub format: FormatModel,
}

/// One inline segment (text, image or footnote reference) with its associated
/// formatting. Never stored: synthesized on demand by [`inline_segments_view`].
#[derive(Debug, PartialEq, Eq)]
pub struct InlineSegment {
    pub content: InlineContent,
    pub fmt_font_family: Option<String>,
    pub fmt_font_point_size: Option<i64>,
    pub fmt_font_weight: Option<i64>,
    pub fmt_font_bold: Option<bool>,
    pub fmt_font_italic: Option<bool>,
    pub fmt_font_underline: Option<bool>,
    pub fmt_font_overline: Option<bool>,
    pub fmt_font_strikeout: Option<bool>,
    pub fmt_letter_spacing: Option<i64>,
    pub fmt_word_spacing: Option<i64>,
    pub fmt_anchor_href: Option<String>,
    pub fmt_anchor_names: Vec<String>,
    pub fmt_is_anchor: Option<bool>,
    pub fmt_tooltip: Option<String>,
    pub fmt_underline_style: Option<UnderlineStyle>,
    pub fmt_vertical_alignment: Option<CharVerticalAlignment>,
}

impl DeepView for InlineSegment {
    type V = SegmentModel;

    open spec fn deep_view(&self) -> SegmentModel {
        SegmentModel {
            content: self.content.deep_view(),
            format: FormatModel {
                font_family: self.fmt_font_family.deep_view(),
                font_point_size: self.fmt_font_point_size,
                font_weight: self.fmt_font_weight,
                font_bold: self.fmt_font_bold,
                font_italic: self.fmt_font_italic,
                font_underline: self.fmt_font_underline,
                font_overline: self.fmt_font_overline,
                font_strikeout: self.fmt_font_strikeout,
                letter_spacing: self.fmt_letter_spacing,
                word_spacing: self.fmt_word_spacing,
                anchor_href: self.fmt_anchor_href.deep_view(),
                anchor_names: self.fmt_anchor_names.deep_view(),
                is_anchor: self.fmt_is_anchor,
                tooltip: self.fmt_tooltip.deep_view(),
                underline_style: self.fmt_underline_style,
                vertical_alignment: self.fmt_vertical_alignment,
            },
        }
    }
}

impl Default for InlineSegment {
    fn default() -> (segment: Self)
        ensures
            segment.deep_view() == (SegmentModel {
                content: ContentModel::Empty,
                format: plain_format(),
            }),
    {
        segment_of(InlineContent::Empty, &CharacterFormat::default())
    }
}

impl Clone for InlineSegment {
    fn clone(&self) -> (copy: Self)
        ensures
            copy.deep_view() == self.deep_view(),
    {
        segment_of(self.content.clone(), &character_format_from_segment(self))
    }
}

/// A segment of a content in a format.
fn segment_of(content: InlineContent, format: &CharacterFormat) -> (segment: InlineSegment)
    ensures
        segment.deep_view() == (SegmentModel {
            content: content.deep_view(),
            format: format.deep_view(),
        }),
{
    let format = format.clone();
    InlineSegment {
        content,
        fmt_font_family: format.font_family,
        fmt_font_point_size: format.font_point_size,
        fmt_font_weight: format.font_weight,
        fmt_font_bold: format.font_bold,
        fmt_font_italic: format.font_italic,
        fmt_font_underline: format.font_underline,
        fmt_font_overline: format.font_overline,
        fmt_font_strikeout: format.font_strikeout,
        fmt_letter_spacing: format.letter_spacing,
        fmt_word_spacing: format.word_spacing,
        fmt_anchor_href: format.anchor_href,
        fmt_anchor_names: format.anchor_names,
        fmt_is_anchor: format.is_anchor,
        fmt_tooltip: format.tooltip,
        fmt_underline_style: format.underline_style,
        fmt_vertical_alignment: format.vertical_alignment,
    }
}

/// Copy the `fmt_*` fields of an `InlineSegment` into a `CharacterFormat`.
pub fn character_format_from_segment(seg: &InlineSegment) -> (format: CharacterFormat)
    ensures
        format.deep_view() == seg.deep_view().format,
{
    let format = CharacterFormat {
        font_family: seg.fmt_font_family.clone(),
        font_point_size: seg.fmt_font_point_size,
        font_weight: seg.fmt_font_weight,
        font_bold: seg.fmt_font_bold,
        font_italic: seg.fmt_font_italic,
        font_underline: seg.fmt_font_underline,
        font_overline: seg.fmt_font_overline,
        font_strikeout: seg.fmt_font_strikeout,
        letter_spacing: seg.fmt_letter_spacing,
        word_spacing: seg.fmt_word_spacing,
        anchor_href: seg.fmt_anchor_href.clone(),
        anchor_names: seg.fmt_anchor_names.clone(),
        is_anchor: seg.fmt_is_anchor,
        tooltip: seg.fmt_tooltip.clone(),
        underline_style: seg.fmt_underline_style,
        vertical_alignment: seg.fmt_vertical_alignment,
    };
    assert(format.deep_view() =~= seg.deep_view().format);
    format
}

/// Apply a `CharacterFormat` onto an `InlineSegment`'s fmt_* fields.
pub fn apply_character_format_to_segment(seg: &mut InlineSegment, fmt: &CharacterFormat)
    ensures
        final(seg).content == old(seg).content,
        final(seg).deep_view().format == fmt.deep_view(),
{
    let fmt = fmt.clone();
    seg.fmt_font_family = fmt.font_family;
    seg.fmt_font_point_size = fmt.font_point_size;
    seg.fmt_font_weight = fmt.font_weight;
    seg.fmt_font_bold = fmt.font_bold;
    seg.fmt_font_italic = fmt.font_italic;
    seg.fmt_font_underline = fmt.font_underline;
    seg.fmt_font_overline = fmt.font_overline;
    seg.fmt_font_strikeout = fmt.font_strikeout;
    seg.fmt_letter_spacing = fmt.letter_spacing;
    seg.fmt_word_spacing = fmt.word_spacing;
    seg.fmt_anchor_href = fmt.anchor_href;
    seg.fmt_anchor_names = fmt.anchor_names;
    seg.fmt_is_anchor = fmt.is_anchor;
    seg.fmt_tooltip = fmt.tooltip;
    seg.fmt_underline_style = fmt.underline_style;
    seg.fmt_vertical_alignment = fmt.vertical_alignment;
}

/// What an [`ImageAnchor`] holds.
#[verifier::ext_equal]
pub struct ImageModel {
    pub offset: int,
    pub name: Seq<char>,
    pub alt: Seq<char>,
    pub width: i64,
    pub height: i64,
    pub quality: i64,
    pub format: FormatModel,
}

/// An image embedded at a specific byte position inside a block, where the
/// block's text holds a U+FFFC sentinel character.
///
/// Images carry their own [`CharacterFormat`] because vertical alignment
/// and anchor metadata apply per inline run.
#[derive(Debug, PartialEq, Eq)]
pub struct ImageAnchor {
    pub byte_offset: u32,
    pub name: String,
    /// Alternative text.
    pub alt: String,
    pub width: i64,
    pub height: i64,
    pub quality: i64,
    pub format: CharacterFormat,
}

impl DeepView for ImageAnchor {
    type V = ImageModel;

    open spec fn deep_view(&self) -> ImageModel {
        ImageModel {
            offset: self.byte_offset as int,
            name: self.name@,
            alt: self.alt@,
            width: self.width,
            height: self.height,
            quality: self.quality,
            format: self.format.deep_view(),
        }
    }
}

impl Clone for ImageAnchor {
    fn clone(&self) -> (copy: Self)
        ensures
            copy.deep_view() == self.deep_view(),
            copy.byte_offset == self.byte_offset,
    {
        ImageAnchor {
            byte_offset: self.byte_offset,
            name: self.name.clone(),
            alt: self.alt.clone(),
            width: self.width,
            height: self.height,
            quality: self.quality,
            format: self.format.clone(),
        }
    }
}

/// What a [`FootnoteRefAnchor`] holds.
#[verifier::ext_equal]
pub struct NoteModel {
    pub offset: int,
    pub label: Seq<char>,
    pub format: FormatModel,
}

/// A footnote reference embedded at a specific byte position inside a block.
///
/// The exact shape of [`ImageAnchor`], and for the same reason: a reference is
/// an inline object occupying one `U+FFFC` sentinel in the block's text, so the
/// text moves it with every edit and deleting the sentence deletes the
/// reference.
///
/// It carries its own [`CharacterFormat`] because a reference is normally
/// superscript, and because whatever formatting surrounds it should not bleed
/// onto the marker. What it deliberately does **not** carry is the number.
#[derive(Debug, PartialEq, Eq)]
pub struct FootnoteRefAnchor {
    pub byte_offset: u32,
    /// Matches a footnote definition's label, when one exists in this document
    /// at all. Djot's `[^label]` syntax on the wire.
    pub label: String,
    pub format: CharacterFormat,
}

impl DeepView for FootnoteRefAnchor {
    type V = NoteModel;

    open spec fn deep_view(&self) -> NoteModel {
        NoteModel {
            offset: self.byte_offset as int,
            label: self.label@,
            format: self.format.deep_view(),
        }
    }
}

impl Clone for FootnoteRefAnchor {
    fn clone(&self) -> (copy: Self)
        ensures
            copy.deep_view() == self.deep_view(),
            copy.byte_offset == self.byte_offset,
    {
        FootnoteRefAnchor {
            byte_offset: self.byte_offset,
            label: self.label.clone(),
            format: self.format.clone(),
        }
    }
}

/// An image or a footnote reference.
#[verifier::ext_equal]
pub enum AnchorModel {
    Image(ImageModel),
    FootnoteRef(NoteModel),
}

impl AnchorModel {
    /// The byte position of the anchor's sentinel.
    pub open spec fn offset(self) -> int {
        match self {
            AnchorModel::Image(image) => image.offset,
            AnchorModel::FootnoteRef(note) => note.offset,
        }
    }

    /// The anchor as a piece of the woven stream.
    pub open spec fn piece(self) -> PieceModel {
        match self {
            AnchorModel::Image(image) => PieceModel::Image(image),
            AnchorModel::FootnoteRef(note) => PieceModel::FootnoteRef(note),
        }
    }
}

/// One inline object anchored in a block: an image, or a footnote reference.
///
/// Both occupy a single `U+FFFC` and are woven into the text by the same rules,
/// so the weave takes them as one byte-ordered sequence.
#[derive(Clone, Copy, Debug, PartialEq, Eq)]
pub enum BlockAnchor<'a> {
    Image(&'a ImageAnchor),
    FootnoteRef(&'a FootnoteRefAnchor),
}

impl<'a> DeepView for BlockAnchor<'a> {
    type V = AnchorModel;

    open spec fn deep_view(&self) -> AnchorModel {
        match *self {
            BlockAnchor::Image(image) => AnchorModel::Image(image.deep_view()),
            BlockAnchor::FootnoteRef(note) => AnchorModel::FootnoteRef(note.deep_view()),
        }
    }
}

impl<'a> BlockAnchor<'a> {
    /// Byte position of this anchor's sentinel within the block's text.
    pub fn byte_offset(&self) -> (at: u32)
        ensures
            at == self.deep_view().offset(),
    {
        match self {
            BlockAnchor::Image(i) => i.byte_offset,
            BlockAnchor::FootnoteRef(f) => f.byte_offset,
        }
    }
}

/// An anchor put behind all those whose offset is not larger.
pub open spec fn place_anchor(anchors: Seq<AnchorModel>, anchor: AnchorModel) -> Seq<AnchorModel>
    decreases anchors.len(),
{
    if anchors.len() == 0 || anchors.last().offset() <= anchor.offset() {
        anchors.push(anchor)
    } else {
        place_anchor(anchors.drop_last(), anchor).push(anchors.last())
    }
}

/// Anchors in byte order, those at one offset in the order they came in.
pub open spec fn by_offset(anchors: Seq<AnchorModel>) -> Seq<AnchorModel>
    decreases anchors.len(),
{
    if anchors.len() == 0 {
        anchors
    } else {
        place_anchor(by_offset(anchors.drop_last()), anchors.last())
    }
}

/// The images of a block, then its footnote references.
pub open spec fn all_anchors(images: Seq<ImageModel>, notes: Seq<NoteModel>) -> Seq<AnchorModel> {
    images.map_values(|image: ImageModel| AnchorModel::Image(image)) + notes.map_values(
        |note: NoteModel| AnchorModel::FootnoteRef(note),
    )
}

proof fn place_anchor_at(anchors: Seq<AnchorModel>, anchor: AnchorModel, k: int)
    requires
        0 <= k <= anchors.len(),
        forall|i: int| k <= i < anchors.len() ==> (#[trigger] anchors[i]).offset() > anchor.offset(),
        k > 0 ==> anchors[k - 1].offset() <= anchor.offset(),
    ensures
        place_anchor(anchors, anchor) == anchors.insert(k, anchor),
    decreases anchors.len(),
{
    if k == anchors.len() {
        assert(anchors.insert(k, anchor) =~= anchors.push(anchor));
    } else {
        place_anchor_at(anchors.drop_last(), anchor, k);
        assert(anchors.insert(k, anchor) =~= anchors.drop_last().insert(k, anchor).push(
            anchors.last(),
        ));
    }
}

/// Puts an anchor behind all those whose offset is not larger.
fn place<'a>(anchors: &mut Vec<BlockAnchor<'a>>, anchor: BlockAnchor<'a>)
    ensures
        final(anchors).deep_view() == place_anchor(old(anchors).deep_view(), anchor.deep_view()),
{
    let ghost all = anchors.deep_view();
    let mut k: usize = anchors.len();
    while k > 0 && anchors[k - 1].byte_offset() > anchor.byte_offset()
        invariant
            0 <= k <= anchors.len(),
            all == anchors.deep_view(),
            forall|i: int|
                k <= i < all.len() ==> (#[trigger] all[i]).offset() > anchor.deep_view().offset(),
        decreases k,
    {
        k -= 1;
    }
    proof {
        place_anchor_at(all, anchor.deep_view(), k as int);
    }
    anchors.insert(k, anchor);
    assert(anchors.deep_view() =~= all.insert(k as int, anchor.deep_view()));
}

/// Every anchor in a block, in byte order.
///
/// A stable sort, so an image and a reference at the same offset keep
/// a deterministic order rather than swapping between reads.
pub fn block_anchors<'a>(
    images: &'a [ImageAnchor],
    footnote_refs: &'a [FootnoteRefAnchor],
) -> (anchors: Vec<BlockAnchor<'a>>)
    ensures
        anchors.deep_view() == by_offset(
            all_anchors(images.deep_view(), footnote_refs.deep_view()),
        ),
{
    let ghost all = all_anchors(images.deep_view(), footnote_refs.deep_view());
    let mut anchors: Vec<BlockAnchor<'a>> = Vec::new();
    for i in 0..images.len()
        invariant
            all == all_anchors(images.deep_view(), footnote_refs.deep_view()),
            anchors.deep_view() == by_offset(all.take(i as int)),
    {
        proof {
            assert(all.take(i + 1).drop_last() =~= all.take(i as int));
        }
        place(&mut anchors, BlockAnchor::Image(&images[i]));
    }
    for i in 0..footnote_refs.len()
        invariant
            all == all_anchors(images.deep_view(), footnote_refs.deep_view()),
            anchors.deep_view() == by_offset(all.take(images.len() + i)),
    {
        proof {
            assert(all.take(images.len() + i + 1).drop_last() =~= all.take(images.len() + i));
        }
        place(&mut anchors, BlockAnchor::FootnoteRef(&footnote_refs[i]));
    }
    assert(all.take(all.len() as int) =~= all);
    anchors
}

/// One ordered piece of a block's inline content, over models.
#[verifier::ext_equal]
pub enum PieceModel {
    Text { start: int, end: int, format: Option<FormatModel> },
    Image(ImageModel),
    FootnoteRef(NoteModel),
}

/// One ordered piece of a block's inline content: a run of text, or an image.
///
/// Produced by [`merge_runs_and_anchors`] and mapped by each caller into its own
/// output type.
#[derive(Clone, Copy, Debug, PartialEq)]
pub enum InlinePiece<'a> {
    /// Byte range `[start, end)` of the block's text. `format` is
    /// `None` for bytes no format run covers.
    Text { start: u32, end: u32, format: Option<&'a CharacterFormat> },
    /// An image anchored at this position. Contributes one logical character
    /// and zero bytes.
    Image(&'a ImageAnchor),
    /// A footnote reference anchored at this position. Contributes one logical
    /// character and zero bytes, exactly as an image does.
    FootnoteRef(&'a FootnoteRefAnchor),
}

impl<'a> DeepView for InlinePiece<'a> {
    type V = PieceModel;

    open spec fn deep_view(&self) -> PieceModel {
        match *self {
            InlinePiece::Text { start, end, format } => PieceModel::Text {
                start: start as int,
                end: end as int,
                format: format.deep_view(),
            },
            InlinePiece::Image(image) => PieceModel::Image(image.deep_view()),
            InlinePiece::FootnoteRef(note) => PieceModel::FootnoteRef(note.deep_view()),
        }
    }
}

/// How far a weave has come: what it emitted, up to which byte, and which
/// anchor comes next.
#[verifier::ext_equal]
pub struct Weave {
    pub pieces: Seq<PieceModel>,
    pub cursor: int,
    pub next: int,
}

/// Emits the text up to a byte.
pub open spec fn weave_text(w: Weave, end: int, format: Option<FormatModel>) -> Weave {
    Weave {
        pieces: if w.cursor < end {
            w.pieces.push(PieceModel::Text { start: w.cursor, end, format })
        } else {
            w.pieces
        },
        cursor: if w.cursor < end {
            end
        } else {
            w.cursor
        },
        next: w.next,
    }
}

/// The number of bytes an anchor occupies in the block's text: those of the
/// U+FFFC at its offset, or none where the text holds no such character there.
pub open spec fn sentinel_bytes(text: Seq<char>, at: int) -> int {
    if 0 <= at && at + 3 <= byte_len(text) && encode_utf8(text).subrange(at, at + 3) == seq![
        0xEFu8,
        0xBFu8,
        0xBCu8,
    ] {
        3
    } else {
        0
    }
}

/// Emits the text up to an anchor, the anchor, and steps over its sentinel.
pub open spec fn weave_anchor(
    text: Seq<char>,
    w: Weave,
    anchor: AnchorModel,
    format: Option<FormatModel>,
) -> Weave {
    let at = anchor.offset();
    let past = at + sentinel_bytes(text, at);
    let up = weave_text(w, at, format);
    Weave {
        pieces: up.pieces.push(anchor.piece()),
        cursor: if w.cursor < past {
            past
        } else {
            w.cursor
        },
        next: w.next + 1,
    }
}

/// Emits the anchors that are left and lie before a byte.
pub open spec fn weave_anchors(
    text: Seq<char>,
    anchors: Seq<AnchorModel>,
    w: Weave,
    limit: int,
    format: Option<FormatModel>,
) -> Weave
    decreases anchors.len() - w.next,
{
    if w.next < 0 || w.next >= anchors.len() || anchors[w.next].offset() >= limit {
        w
    } else {
        weave_anchors(
            text,
            anchors,
            weave_anchor(text, w, anchors[w.next], format),
            limit,
            format,
        )
    }
}

/// Emits what lies before a run, then the run, split by the anchors inside it.
pub open spec fn weave_run(
    text: Seq<char>,
    anchors: Seq<AnchorModel>,
    w: Weave,
    run: RunModel,
) -> Weave {
    let reached = weave_text(weave_anchors(text, anchors, w, run.start, None), run.start, None);
    weave_text(
        weave_anchors(text, anchors, reached, run.end + 1, Some(run.format)),
        run.end,
        Some(run.format),
    )
}

/// Emits run after run.
pub open spec fn weave_runs(
    text: Seq<char>,
    anchors: Seq<AnchorModel>,
    runs: Seq<RunModel>,
) -> Weave
    decreases runs.len(),
{
    if runs.len() == 0 {
        Weave { pieces: Seq::empty(), cursor: 0, next: 0 }
    } else {
        weave_run(text, anchors, weave_runs(text, anchors, runs.drop_last()), runs.last())
    }
}

/// The text, formats and anchors of a block as one ordered stream.
pub open spec fn woven(
    text: Seq<char>,
    runs: Seq<RunModel>,
    anchors: Seq<AnchorModel>,
) -> Seq<PieceModel> {
    weave_text(
        weave_anchors(text, anchors, weave_runs(text, anchors, runs), 0x1_0000_0000, None),
        byte_len(text) as int,
        None,
    ).pieces
}

/// Bytes an anchor occupies in the text.
///
/// An image's own character sits in the text, so text resuming after the image
/// must step over it. Checked rather than assumed: an anchor without a sentinel
/// is still handled, it simply consumes no bytes.
fn sentinel_len(plain_text: &str, byte_offset: u32) -> (n: u32)
    requires
        byte_len(plain_text@) <= u32::MAX,
    ensures
        n == sentinel_bytes(plain_text@, byte_offset as int),
        n == 0 || byte_offset + n <= byte_len(plain_text@),
{
    let bytes = plain_text.as_bytes();
    let at: usize = byte_offset as usize;
    if bytes.len() >= 3 && at <= bytes.len() - 3 {
        proof {
            let part = encode_utf8(plain_text@).subrange(at as int, at + 3);
            let mark = seq![0xEFu8, 0xBFu8, 0xBCu8];
            if part[0] == 0xEF && part[1] == 0xBF && part[2] == 0xBC {
                assert(part =~= mark);
            } else {
                assert(part[0] != mark[0] || part[1] != mark[1] || part[2] != mark[2]);
            }
        }
        if bytes[at] == 0xEF && bytes[at + 1] == 0xBF && bytes[at + 2] == 0xBC {
            return 3;
        }
    }
    0
}

/// Emits a run of text, if it is not empty.
fn push_text<'a>(
    out: &mut Vec<InlinePiece<'a>>,
    start: u32,
    end: u32,
    format: Option<&'a CharacterFormat>,
)
    ensures
        final(out).deep_view() == if start < end {
            old(out).deep_view().push(
                PieceModel::Text {
                    start: start as int,
                    end: end as int,
                    format: format.deep_view(),
                },
            )
        } else {
            old(out).deep_view()
        },
{
    if start < end {
        out.push(InlinePiece::Text { start, end, format });
    }
}

/// The piece an anchor contributes, whichever kind it is.
fn piece<'a>(anchor: &BlockAnchor<'a>) -> (piece: InlinePiece<'a>)
    ensures
        piece.deep_view() == anchor.deep_view().piece(),
{
    match *anchor {
        BlockAnchor::Image(i) => InlinePiece::Image(i),
        BlockAnchor::FootnoteRef(f) => InlinePiece::FootnoteRef(f),
    }
}

/// Emits the anchors from `next` on that lie before `limit`, each behind the
/// text up to it. Returns the new cursor and the new next anchor.
fn push_anchors<'a>(
    plain_text: &str,
    anchors: &[BlockAnchor<'a>],
    out: &mut Vec<InlinePiece<'a>>,
    cursor: u32,
    next: usize,
    limit: u64,
    format: Option<&'a CharacterFormat>,
) -> (state: (u32, usize))
    requires
        byte_len(plain_text@) <= u32::MAX,
        next <= anchors.len(),
    ensures
        state.1 <= anchors.len(),
        weave_anchors(
            plain_text@,
            anchors.deep_view(),
            (Weave { pieces: old(out).deep_view(), cursor: cursor as int, next: next as int }),
            limit as int,
            format.deep_view(),
        ) == (Weave {
            pieces: final(out).deep_view(),
            cursor: state.0 as int,
            next: state.1 as int,
        }),
{
    let ghost all = anchors.deep_view();
    let ghost start = Weave {
        pieces: out.deep_view(),
        cursor: cursor as int,
        next: next as int,
    };
    let mut cursor: u32 = cursor;
    let mut next: usize = next;
    while next < anchors.len() && (anchors[next].byte_offset() as u64) < limit
        invariant
            all == anchors.deep_view(),
            byte_len(plain_text@) <= u32::MAX,
            next <= anchors.len(),
            weave_anchors(plain_text@, all, start, limit as int, format.deep_view())
                == weave_anchors(
                plain_text@,
                all,
                (Weave { pieces: out.deep_view(), cursor: cursor as int, next: next as int }),
                limit as int,
                format.deep_view(),
            ),
        decreases anchors.len() - next,
    {
        let at: u32 = anchors[next].byte_offset();
        push_text(out, cursor, at, format);
        out.push(piece(&anchors[next]));
        let past: u32 = at + sentinel_len(plain_text, at);
        if cursor < past {
            cursor = past;
        }
        next += 1;
    }
    (cursor, next)
}

/// Interleave a block's format runs and image anchors into one ordered stream.
///
/// A block stores three parallel things: the text bytes, a list of formatted
/// byte ranges, and a list of anchors keyed by byte offset. An anchor *inside*
/// a formatted run splits the run: the text before it, then the anchor, then
/// the rest of the run with the same format.
///
/// Callers map the returned pieces to their own types; nobody re-derives the
/// ordering.
pub fn merge_runs_and_anchors<'a>(
    plain_text: &str,
    runs: &'a [FormatRun],
    anchors: &[BlockAnchor<'a>],
) -> (out: Vec<InlinePiece<'a>>)
    requires
        byte_len(plain_text@) <= u32::MAX,
    ensures
        out.deep_view() == woven(plain_text@, runs.deep_view(), anchors.deep_view()),
{
    let ghost all = runs.deep_view();
    let ghost text = plain_text@;
    let ghost objects = anchors.deep_view();
    let text_len: u32 = plain_text.len() as u32;
    let mut out: Vec<InlinePiece<'a>> = Vec::new();
    // Highest byte offset already emitted. Never moves backwards.
    let mut cursor: u32 = 0;
    let mut next: usize = 0;
    for i in 0..runs.len()
        invariant
            all == runs.deep_view(),
            text == plain_text@,
            objects == anchors.deep_view(),
            byte_len(text) <= u32::MAX,
            next <= anchors.len(),
            weave_runs(text, objects, all.take(i as int)) == (Weave {
                pieces: out.deep_view(),
                cursor: cursor as int,
                next: next as int,
            }),
    {
        let run = &runs[i];
        proof {
            assert(all.take(i + 1).drop_last() =~= all.take(i as int));
        }
        // Anchors strictly before this run: unformatted gap text, then the anchor.
        let step = push_anchors(
            plain_text,
            anchors,
            &mut out,
            cursor,
            next,
            run.byte_start as u64,
            None,
        );
        cursor = step.0;
        next = step.1;
        // Unformatted gap between the last emission and the run's start.
        push_text(&mut out, cursor, run.byte_start, None);
        if cursor < run.byte_start {
            cursor = run.byte_start;
        }
        // Anchors inside the run split it, keeping the run's format on both
        // sides. An anchor sitting exactly on the run's end boundary is
        // consumed here rather than deferred.
        let step = push_anchors(
            plain_text,
            anchors,
            &mut out,
            cursor,
            next,
            run.byte_end as u64 + 1,
            Some(&run.format),
        );
        cursor = step.0;
        next = step.1;
        push_text(&mut out, cursor, run.byte_end, Some(&run.format));
        if cursor < run.byte_end {
            cursor = run.byte_end;
        }
    }
    proof {
        assert(all.take(all.len() as int) =~= all);
    }
    // Anchors past the last run.
    let step = push_anchors(plain_text, anchors, &mut out, cursor, next, 0x1_0000_0000u64, None);
    cursor = step.0;
    push_text(&mut out, cursor, text_len, None);
    out
}

/// Whether the text pieces of a stream can be cut out of the text.
pub open spec fn sliceable(text: Seq<char>, pieces: Seq<PieceModel>) -> bool {
    forall|i: int|
        0 <= i < pieces.len() ==> match #[trigger] pieces[i] {
            PieceModel::Text { start, end, .. } => start <= end && is_cut(text, start) && is_cut(
                text,
                end,
            ),
            _ => true,
        }
}

/// The content and the format of a piece.
pub open spec fn piece_segment(text: Seq<char>, piece: PieceModel) -> SegmentModel {
    match piece {
        PieceModel::Text { start, end, format } => SegmentModel {
            content: ContentModel::Text(byte_slice(text, start, end)),
            format: match format {
                Some(format) => format,
                None => plain_format(),
            },
        },
        PieceModel::Image(image) => SegmentModel {
            content: ContentModel::Image {
                name: image.name,
                alt: image.alt,
                width: image.width,
                height: image.height,
                quality: image.quality,
            },
            format: image.format,
        },
        PieceModel::FootnoteRef(note) => SegmentModel {
            content: ContentModel::FootnoteRef { label: note.label },
            format: note.format,
        },
    }
}

/// The number of characters a piece takes in the document's character space.
pub open spec fn piece_chars(text: Seq<char>, piece: PieceModel) -> int {
    match piece {
        PieceModel::Text { start, end, .. } => byte_slice(text, start, end).len() as int,
        _ => 1,
    }
}

/// The number of characters that pieces take together.
pub open spec fn pieces_chars(text: Seq<char>, pieces: Seq<PieceModel>) -> int
    decreases pieces.len(),
{
    if pieces.len() == 0 {
        0
    } else {
        pieces_chars(text, pieces.drop_last()) + piece_chars(text, pieces.last())
    }
}

/// What an [`AddressableInlinePiece`] holds.
#[verifier::ext_equal]
pub struct AddressableModel {
    pub start: int,
    pub end: int,
    pub content: ContentModel,
    pub format: FormatModel,
}

/// [`InlinePiece`], but positioned in the document's own **addressable character space**
/// rather than as byte offsets local to the block's text.
///
/// Every offset the rest of this crate deals out lives in one **character**
/// space, in which an inline image or footnote reference counts one character
/// though its sentinel takes three bytes.
#[derive(Debug, PartialEq)]
pub struct AddressableInlinePiece {
    /// `[start, end)` in the addressable character space. `end - start` is always `1` for
    /// [`InlineContent::Image`] and [`InlineContent::FootnoteRef`], and equals the
    /// number of characters for [`InlineContent::Text`].
    pub start: u32,
    pub end: u32,
    pub content: InlineContent,
    pub format: CharacterFormat,
}

impl DeepView for AddressableInlinePiece {
    type V = AddressableModel;

    open spec fn deep_view(&self) -> AddressableModel {
        AddressableModel {
            start: self.start as int,
            end: self.end as int,
            content: self.content.deep_view(),
            format: self.format.deep_view(),
        }
    }
}

impl Clone for AddressableInlinePiece {
    fn clone(&self) -> (copy: Self)
        ensures
            copy.deep_view() == self.deep_view(),
    {
        AddressableInlinePiece {
            start: self.start,
            end: self.end,
            content: self.content.clone(),
            format: self.format.clone(),
        }
    }
}

/// Pieces laid out one behind the other in character space, from `base` on.
pub open spec fn addressed(text: Seq<char>, pieces: Seq<PieceModel>, base: int) -> Seq<
    AddressableModel,
> {
    Seq::new(
        pieces.len(),
        |i: int|
            AddressableModel {
                start: base + pieces_chars(text, pieces.take(i)),
                end: base + pieces_chars(text, pieces.take(i + 1)),
                content: piece_segment(text, pieces[i]).content,
                format: piece_segment(text, pieces[i]).format,
            },
    )
}

/// The content of a piece, and its format.
fn segment_parts(plain_text: &str, piece: &InlinePiece) -> (parts: (
    InlineContent,
    CharacterFormat,
))
    requires
        piece.deep_view() matches PieceModel::Text { start, end, .. } ==> start <= end && is_cut(
            plain_text@,
            start,
        ) && is_cut(plain_text@, end),
    ensures
        parts.0.deep_view() == piece_segment(plain_text@, piece.deep_view()).content,
        parts.1.deep_view() == piece_segment(plain_text@, piece.deep_view()).format,
{
    match piece {
        InlinePiece::Text { start, end, format } => {
            proof {
                cut_in_range(plain_text@, *end as int);
            }
            let text = slice_bytes(plain_text, *start as usize, *end as usize);
            let format = match format {
                Some(format) => (*format).clone(),
                None => CharacterFormat::default(),
            };
            (InlineContent::Text(text), format)
        },
        InlinePiece::Image(anchor) => (
            InlineContent::Image {
                name: anchor.name.clone(),
                alt: anchor.alt.clone(),
                width: anchor.width,
                height: anchor.height,
                quality: anchor.quality,
            },
            anchor.format.clone(),
        ),
        InlinePiece::FootnoteRef(anchor) => (
            InlineContent::FootnoteRef { label: anchor.label.clone() },
            anchor.format.clone(),
        ),
    }
}

proof fn pieces_chars_grows(text: Seq<char>, pieces: Seq<PieceModel>, i: int)
    requires
        0 <= i <= pieces.len(),
    ensures
        0 <= pieces_chars(text, pieces.take(i)) <= pieces_chars(text, pieces),
    decreases pieces.len(),
{
    if i < pieces.len() {
        assert(pieces.drop_last().take(i) =~= pieces.take(i));
        pieces_chars_grows(text, pieces.drop_last(), i);
    } else {
        assert(pieces.take(i) =~= pieces);
        if pieces.len() > 0 {
            assert(pieces.drop_last().take(i - 1) =~= pieces.drop_last());
            pieces_chars_grows(text, pieces.drop_last(), i - 1);
        }
    }
}

/// Pieces take some number of characters, or none.
pub proof fn pieces_take_no_less_than_nothing(text: Seq<char>, pieces: Seq<PieceModel>)
    ensures
        0 <= pieces_chars(text, pieces),
{
    pieces_chars_grows(text, pieces, 0);
    assert(pieces.take(0) =~= Seq::<PieceModel>::empty());
}

/// Build a block's [`AddressableInlinePiece`]s from its text, format runs, and
/// anchors, offset by `base_char_offset`: the character position this block's own first
/// piece should start at.
///
/// Layered on [`merge_runs_and_anchors`]: the only thing added here is the
/// byte-to-character conversion and a running offset. Pass `0` to get offsets
/// relative to this block alone.
pub fn addressable_inline_pieces(
    plain_text: &str,
    runs: &[FormatRun],
    anchors: &[BlockAnchor<'_>],
    base_char_offset: u32,
) -> (out: Vec<AddressableInlinePiece>)
    requires
        byte_len(plain_text@) <= u32::MAX,
        sliceable(plain_text@, woven(plain_text@, runs.deep_view(), anchors.deep_view())),
        base_char_offset + pieces_chars(
            plain_text@,
            woven(plain_text@, runs.deep_view(), anchors.deep_view()),
        ) <= u32::MAX,
    ensures
        out.deep_view() == addressed(
            plain_text@,
            woven(plain_text@, runs.deep_view(), anchors.deep_view()),
            base_char_offset as int,
        ),
{
    let ghost text = plain_text@;
    let pieces = merge_runs_and_anchors(plain_text, runs, anchors);
    let ghost all = pieces.deep_view();
    let mut out: Vec<AddressableInlinePiece> = Vec::new();
    let mut cursor: u32 = base_char_offset;
    for i in 0..pieces.len()
        invariant
            all == pieces.deep_view(),
            text == plain_text@,
            sliceable(text, all),
            base_char_offset + pieces_chars(text, all) <= u32::MAX,
            cursor == base_char_offset + pieces_chars(text, all.take(i as int)),
            out.deep_view() == addressed(text, all, base_char_offset as int).take(i as int),
    {
        let ghost done = out.deep_view();
        proof {
            assert(all[i as int] == pieces[i as int].deep_view());
            assert(all.take(i + 1).drop_last() =~= all.take(i as int));
            pieces_chars_grows(text, all, i + 1);
        }
        let parts = segment_parts(plain_text, &pieces[i]);
        let len: u32 = match &parts.0 {
            InlineContent::Text(text) => to_chars(text.as_str()).len() as u32,
            _ => 1,
        };
        out.push(
            AddressableInlinePiece {
                start: cursor,
                end: cursor + len,
                content: parts.0,
                format: parts.1,
            },
        );
        cursor = cursor + len;
        proof {
            assert(out.deep_view() =~= addressed(text, all, base_char_offset as int).take(i + 1));
        }
    }
    proof {
        let whole = addressed(text, all, base_char_offset as int);
        assert(whole.take(all.len() as int) =~= whole);
    }
    out
}

/// Synthesize a `Vec<InlineSegment>` view of a block from its
/// text, its format runs, its images and its footnote references. Returns
/// segments in document order: a Text segment per format run (with a fallback
/// default-format segment for any uncovered bytes), and an Image or FootnoteRef
/// segment per anchor at its byte offset.
pub fn inline_segments_view(
    plain_text: &str,
    runs: &[FormatRun],
    images: &[ImageAnchor],
    footnote_refs: &[FootnoteRefAnchor],
) -> (out: Vec<InlineSegment>)
    requires
        byte_len(plain_text@) <= u32::MAX,
        sliceable(
            plain_text@,
            woven(
                plain_text@,
                runs.deep_view(),
                by_offset(all_anchors(images.deep_view(), footnote_refs.deep_view())),
            ),
        ),
    ensures
        out.deep_view() == woven(
            plain_text@,
            runs.deep_view(),
            by_offset(all_anchors(images.deep_view(), footnote_refs.deep_view())),
        ).map_values(|piece: PieceModel| piece_segment(plain_text@, piece)),
{
    let ghost text = plain_text@;
    let anchors = block_anchors(images, footnote_refs);
    let objects = anchors.as_slice();
    assert(objects.deep_view() =~= anchors.deep_view());
    let pieces = merge_runs_and_anchors(plain_text, runs, objects);
    let ghost all = pieces.deep_view();
    let ghost whole = all.map_values(|piece: PieceModel| piece_segment(text, piece));
    let mut out: Vec<InlineSegment> = Vec::new();
    for i in 0..pieces.len()
        invariant
            all == pieces.deep_view(),
            text == plain_text@,
            sliceable(text, all),
            whole == all.map_values(|piece: PieceModel| piece_segment(text, piece)),
            out.deep_view() == whole.take(i as int),
    {
        proof {
            assert(all[i as int] == pieces[i as int].deep_view());
            assert(whole.take(i + 1) =~= whole.take(i as int).push(whole[i as int]));
        }
        let parts = segment_parts(plain_text, &pieces[i]);
        out.push(segment_of(parts.0, &parts.1));
    }
    assert(whole.take(whole.len() as int) =~= whole);
    out
}

/// The images of a block that lie within `[start, end)`, by offset and format.
pub open spec fn captured_formats(images: Seq<ImageModel>, start: int, end: int) -> Seq<
    (u32, FormatModel),
>
    decreases images.len(),
{
    if images.len() == 0 {
        Seq::empty()
    } else {
        let kept = captured_formats(images.drop_last(), start, end);
        let image = images.last();
        if start <= image.offset < end {
            kept.push((image.offset as u32, image.format))
        } else {
            kept
        }
    }
}

/// Capture the `(byte_offset, format)` pairs for every image anchor
/// inside `[start..end)`. Used together with
/// [`crate::format_runs::capture_runs_in_range`] by hand-rolled-inverse undo for
/// format-only edits.
pub fn capture_image_formats_in_range(images: &[ImageAnchor], start: u32, end: u32) -> (out: Vec<
    (u32, CharacterFormat),
>)
    ensures
        out.deep_view() == captured_formats(images.deep_view(), start as int, end as int),
{
    let ghost all = images.deep_view();
    let mut out: Vec<(u32, CharacterFormat)> = Vec::new();
    for i in 0..images.len()
        invariant
            all == images.deep_view(),
            out.deep_view() == captured_formats(all.take(i as int), start as int, end as int),
    {
        let img = &images[i];
        proof {
            assert(all.take(i + 1).drop_last() =~= all.take(i as int));
        }
        if img.byte_offset >= start && img.byte_offset < end {
            out.push((img.byte_offset, img.format.clone()));
        }
    }
    assert(all.take(all.len() as int) =~= all);
    out
}

/// An image moved by `delta` if it lies at or past `threshold`.
pub open spec fn shift_image(image: ImageModel, threshold: int, delta: int) -> ImageModel {
    if image.offset >= threshold {
        ImageModel { offset: (image.offset + delta) % 0x1_0000_0000, ..image }
    } else {
        image
    }
}

/// Same as [`crate::format_runs::shift_after`] for image anchors. Anchors AT the
/// threshold are shifted (treated as part of the inserted region's right side).
pub fn shift_images_after(images: &mut Vec<ImageAnchor>, threshold: u32, delta: i32)
    requires
        forall|i: int|
            0 <= i < old(images).deep_view().len() ==> (#[trigger] old(images).deep_view()[i]).offset
                >= threshold ==> old(images).deep_view()[i].offset + delta >= 0,
    ensures
        final(images).deep_view() == old(images).deep_view().map_values(
            |image: ImageModel| shift_image(image, threshold as int, delta as int),
        ),
{
    let ghost all = images.deep_view();
    let len: usize = images.len();
    for i in 0..len
        invariant
            len == images.len(),
            len == all.len(),
            forall|j: int|
                0 <= j < all.len() ==> (#[trigger] all[j]).offset >= threshold ==> all[j].offset
                    + delta >= 0,
            forall|j: int|
                0 <= j < i ==> #[trigger] images.deep_view()[j] == shift_image(
                    all[j],
                    threshold as int,
                    delta as int,
                ),
            forall|j: int| i <= j < len ==> #[trigger] images.deep_view()[j] == all[j],
    {
        let ghost now = images.deep_view();
        proof {
            assert(now[i as int] == all[i as int]);
        }
        if images[i].byte_offset >= threshold {
            let new_off: i64 = images[i].byte_offset as i64 + delta as i64;
            images[i].byte_offset = (new_off as u64 % 0x1_0000_0000u64) as u32;
        }
        proof {
            assert(images.deep_view() =~= now.update(
                i as int,
                shift_image(now[i as int], threshold as int, delta as int),
            ));
        }
    }
    assert(images.deep_view() =~= all.map_values(
        |image: ImageModel| shift_image(image, threshold as int, delta as int),
    ));
}

/// The images after `n` bytes were inserted at `at`.
pub open spec fn inserted_images(images: Seq<ImageModel>, at: int, n: int) -> Seq<ImageModel> {
    images.map_values(
        |image: ImageModel|
            if image.offset >= at {
                ImageModel { offset: image.offset + n, ..image }
            } else {
                image
            },
    )
}

/// The footnote references after `n` bytes were inserted at `at`.
pub open spec fn inserted_notes(notes: Seq<NoteModel>, at: int, n: int) -> Seq<NoteModel> {
    notes.map_values(
        |note: NoteModel|
            if note.offset >= at {
                NoteModel { offset: note.offset + n, ..note }
            } else {
                note
            },
    )
}

/// Apply an "insert" mutation to a block's footnote references: the rule
/// [`shift_images_for_insert`] applies, for the same reason.
pub fn shift_footnote_refs_for_insert(
    notes: &mut Vec<FootnoteRefAnchor>,
    byte_offset: u32,
    inserted_bytes: u32,
)
    requires
        forall|i: int|
            0 <= i < old(notes).deep_view().len() ==> (#[trigger] old(notes).deep_view()[i]).offset
                >= byte_offset ==> old(notes).deep_view()[i].offset + inserted_bytes <= u32::MAX,
    ensures
        final(notes).deep_view() == inserted_notes(
            old(notes).deep_view(),
            byte_offset as int,
            inserted_bytes as int,
        ),
{
    let ghost all = notes.deep_view();
    let len: usize = notes.len();
    for i in 0..len
        invariant
            len == notes.len(),
            len == all.len(),
            forall|j: int|
                0 <= j < all.len() ==> (#[trigger] all[j]).offset >= byte_offset ==> all[j].offset
                    + inserted_bytes <= u32::MAX,
            forall|j: int|
                0 <= j < i ==> #[trigger] notes.deep_view()[j] == inserted_notes(
                    all,
                    byte_offset as int,
                    inserted_bytes as int,
                )[j],
            forall|j: int| i <= j < len ==> #[trigger] notes.deep_view()[j] == all[j],
    {
        let ghost now = notes.deep_view();
        proof {
            assert(now[i as int] == all[i as int]);
        }
        if notes[i].byte_offset >= byte_offset {
            let moved: u32 = notes[i].byte_offset + inserted_bytes;
            notes[i].byte_offset = moved;
        }
        proof {
            assert(notes.deep_view() =~= now.update(
                i as int,
                inserted_notes(all, byte_offset as int, inserted_bytes as int)[i as int],
            ));
        }
    }
    assert(notes.deep_view() =~= inserted_notes(all, byte_offset as int, inserted_bytes as int));
}

/// Apply an "insert" shift to a block's image anchors. Anchors at or
/// past the offset move forward by `inserted_bytes`.
pub fn shift_images_for_insert(
    images: &mut Vec<ImageAnchor>,
    byte_offset: u32,
    inserted_bytes: u32,
)
    requires
        forall|i: int|
            0 <= i < old(images).deep_view().len() ==> (#[trigger] old(images).deep_view()[i]).offset
                >= byte_offset ==> old(images).deep_view()[i].offset + inserted_bytes <= u32::MAX,
    ensures
        final(images).deep_view() == inserted_images(
            old(images).deep_view(),
            byte_offset as int,
            inserted_bytes as int,
        ),
{
    let ghost all = images.deep_view();
    let len: usize = images.len();
    for i in 0..len
        invariant
            len == images.len(),
            len == all.len(),
            forall|j: int|
                0 <= j < all.len() ==> (#[trigger] all[j]).offset >= byte_offset ==> all[j].offset
                    + inserted_bytes <= u32::MAX,
            forall|j: int|
                0 <= j < i ==> #[trigger] images.deep_view()[j] == inserted_images(
                    all,
                    byte_offset as int,
                    inserted_bytes as int,
                )[j],
            forall|j: int| i <= j < len ==> #[trigger] images.deep_view()[j] == all[j],
    {
        let ghost now = images.deep_view();
        proof {
            assert(now[i as int] == all[i as int]);
        }
        if images[i].byte_offset >= byte_offset {
            let moved: u32 = images[i].byte_offset + inserted_bytes;
            images[i].byte_offset = moved;
        }
        proof {
            assert(images.deep_view() =~= now.update(
                i as int,
                inserted_images(all, byte_offset as int, inserted_bytes as int)[i as int],
            ));
        }
    }
    assert(images.deep_view() =~= inserted_images(all, byte_offset as int, inserted_bytes as int));
}

/// The images after the bytes `[start, end)` were deleted.
pub open spec fn deleted_images(images: Seq<ImageModel>, start: int, end: int) -> Seq<ImageModel>
    decreases images.len(),
{
    if end <= start || images.len() == 0 {
        images
    } else {
        let kept = deleted_images(images.drop_last(), start, end);
        let image = images.last();
        if image.offset < start {
            kept.push(image)
        } else if image.offset < end {
            kept
        } else {
            kept.push(ImageModel { offset: image.offset - (end - start), ..image })
        }
    }
}

/// Apply a "delete" mutation to a block's image anchors. Anchors whose
/// `byte_offset` falls inside `[byte_start..byte_end)` are removed;
/// anchors at or past `byte_end` shift back by the deleted length.
/// Returns the number of anchors removed.
pub fn shift_images_for_delete(
    images: &mut Vec<ImageAnchor>,
    byte_start: u32,
    byte_end: u32,
) -> (removed: usize)
    ensures
        final(images).deep_view() == deleted_images(
            old(images).deep_view(),
            byte_start as int,
            byte_end as int,
        ),
        removed == old(images).deep_view().len() - final(images).deep_view().len(),
{
    if byte_end <= byte_start {
        return 0;
    }
    let ghost all = images.deep_view();
    let mut kept: Vec<ImageAnchor> = Vec::new();
    for i in 0..images.len()
        invariant
            all == images.deep_view(),
            byte_start < byte_end,
            kept.len() <= i,
            kept.deep_view() == deleted_images(
                all.take(i as int),
                byte_start as int,
                byte_end as int,
            ),
    {
        proof {
            assert(all.take(i + 1).drop_last() =~= all.take(i as int));
        }
        let mut image = images[i].clone();
        if image.byte_offset < byte_start {
            kept.push(image);
        } else if image.byte_offset >= byte_end {
            image.byte_offset = image.byte_offset - (byte_end - byte_start);
            kept.push(image);
        }
    }
    assert(all.take(all.len() as int) =~= all);
    let removed: usize = images.len() - kept.len();
    *images = kept;
    removed
}

/// Translate a logical character offset into a UTF-8 byte offset within
/// `plain_text`.
///
/// Each image already occupies exactly one character of `plain_text`: the
/// `U+FFFC` OBJECT REPLACEMENT CHARACTER which [`ImageAnchor::byte_offset`]
/// points at. So a logical offset *is* a character offset, and `_images`
/// deliberately has no part in the answer.
pub fn logical_offset_to_byte(
    plain_text: &str,
    _images: &[ImageAnchor],
    char_offset: i64,
) -> (at: u32)
    requires
        byte_len(plain_text@) <= u32::MAX,
    ensures
        at == byte_len(
            plain_text@.take(
                if char_offset <= 0 {
                    0
                } else if char_offset < plain_text@.len() {
                    char_offset as int
                } else {
                    plain_text@.len() as int
                },
            ),
        ),
{
    let ghost text = plain_text@;
    assert(text.take(0) =~= Seq::<char>::empty());
    if char_offset <= 0 {
        return 0;
    }
    let chars = to_chars(plain_text);
    let mut at: u32 = 0;
    let mut i: usize = 0;
    while i < chars.len() && (i as u64) < char_offset as u64
        invariant
            text == chars@,
            byte_len(text) <= u32::MAX,
            char_offset > 0,
            i <= chars.len(),
            i <= char_offset,
            at == byte_len(text.take(i as int)),
        decreases chars.len() - i,
    {
        proof {
            byte_len_push(text.take(i as int), text[i as int]);
            assert(text.take(i + 1) =~= text.take(i as int).push(text[i as int]));
            prefix_within(text, i + 1);
        }
        at = at + char_bytes(chars[i]) as u32;
        i += 1;
    }
    at
}

/// The images before a byte, and those at or past it counted from there.
pub open spec fn split_images(images: Seq<ImageModel>, at: int) -> (
    Seq<ImageModel>,
    Seq<ImageModel>,
)
    decreases images.len(),
{
    if images.len() == 0 {
        (images, images)
    } else {
        let (left, right) = split_images(images.drop_last(), at);
        let image = images.last();
        if image.offset < at {
            (left.push(image), right)
        } else {
            (left, right.push(ImageModel { offset: image.offset - at, ..image }))
        }
    }
}

/// The footnote references before a byte, and those at or past it counted from there.
pub open spec fn split_notes(notes: Seq<NoteModel>, at: int) -> (Seq<NoteModel>, Seq<NoteModel>)
    decreases notes.len(),
{
    if notes.len() == 0 {
        (notes, notes)
    } else {
        let (left, right) = split_notes(notes.drop_last(), at);
        let note = notes.last();
        if note.offset < at {
            (left.push(note), right)
        } else {
            (left, right.push(NoteModel { offset: note.offset - at, ..note }))
        }
    }
}

/// Split footnote references at `byte_offset`, rebasing the right-hand side to
/// zero: the exact rule [`split_images_at`] applies, because a reference
/// occupies a block the same way an image does.
pub fn split_footnote_refs_at(notes: &[FootnoteRefAnchor], byte_offset: u32) -> (halves: (
    Vec<FootnoteRefAnchor>,
    Vec<FootnoteRefAnchor>,
))
    ensures
        halves.0.deep_view() == split_notes(notes.deep_view(), byte_offset as int).0,
        halves.1.deep_view() == split_notes(notes.deep_view(), byte_offset as int).1,
{
    let ghost all = notes.deep_view();
    let mut left: Vec<FootnoteRefAnchor> = Vec::new();
    let mut right: Vec<FootnoteRefAnchor> = Vec::new();
    for i in 0..notes.len()
        invariant
            all == notes.deep_view(),
            left.deep_view() == split_notes(all.take(i as int), byte_offset as int).0,
            right.deep_view() == split_notes(all.take(i as int), byte_offset as int).1,
    {
        proof {
            assert(all.take(i + 1).drop_last() =~= all.take(i as int));
        }
        let mut note = notes[i].clone();
        if note.byte_offset < byte_offset {
            left.push(note);
        } else {
            note.byte_offset = note.byte_offset - byte_offset;
            right.push(note);
        }
    }
    assert(all.take(all.len() as int) =~= all);
    (left, right)
}

/// Split block image anchors at `byte_offset`. Anchors at exactly
/// `byte_offset` go to the right half (rebased to offset 0).
pub fn split_images_at(images: &[ImageAnchor], byte_offset: u32) -> (halves: (
    Vec<ImageAnchor>,
    Vec<ImageAnchor>,
))
    ensures
        halves.0.deep_view() == split_images(images.deep_view(), byte_offset as int).0,
        halves.1.deep_view() == split_images(images.deep_view(), byte_offset as int).1,
{
    let ghost all = images.deep_view();
    let mut left: Vec<ImageAnchor> = Vec::new();
    let mut right: Vec<ImageAnchor> = Vec::new();
    for i in 0..images.len()
        invariant
            all == images.deep_view(),
            left.deep_view() == split_images(all.take(i as int), byte_offset as int).0,
            right.deep_view() == split_images(all.take(i as int), byte_offset as int).1,
    {
        proof {
            assert(all.take(i + 1).drop_last() =~= all.take(i as int));
        }
        let mut image = images[i].clone();
        if image.byte_offset < byte_offset {
            left.push(image);
        } else {
            image.byte_offset = image.byte_offset - byte_offset;
            right.push(image);
        }
    }
    assert(all.take(all.len() as int) =~= all);
    (left, right)
}

/// The id that stands for the fragment of a block at a byte: the synthetic tag,
/// the low bits of the block's id, and the byte.
pub open spec fn element_id(block_id: int, byte_start: int) -> int {
    0x4000_0000_0000_0000 + (block_id % 0x4000_0000) * 0x1_0000_0000 + byte_start
}

/// Synthesize a stable per-fragment id from a block id and byte offset
/// within that block. Two segments at the same `(block_id, byte_start)` always
/// produce the same id; a segment that moves to a new byte_start (e.g. due to an
/// insert upstream) gets a new id.
///
/// Bit layout (u64): bit 62 = synth tag (so synthesized ids never
/// collide with real entity ids issued by the store's counter, which
/// start at 1 and grow upward). Bits 32..62 = block id (1 billion
/// blocks per document, 30 bits). Bottom 32 bits = byte offset (4 GB
/// per block). The top bit stays zero so the value fits in positive
/// i64 range.
pub fn synth_element_id(block_id: u64, byte_start: u32) -> (id: u64)
    ensures
        id == element_id(block_id as int, byte_start as int),
        0x4000_0000_0000_0000 <= id < 0x8000_0000_0000_0000,
{
    let start: u64 = byte_start as u64;
    let id: u64 = 0x4000_0000_0000_0000u64 | ((block_id & 0x3FFF_FFFF) << 32) | start;
    assert(id == 0x4000_0000_0000_0000u64 + (block_id % 0x4000_0000u64) * 0x1_0000_0000u64 + start
        && id < 0x8000_0000_0000_0000u64) by (bit_vector)
        requires
            id == 0x4000_0000_0000_0000u64 | ((block_id & 0x3FFF_FFFF) << 32) | start,
            start <= 0xFFFF_FFFFu64,
    ;
    id
}

/// Two fragments have one id only where they are the same byte of blocks whose
/// ids agree in their low bits.
pub proof fn element_ids_are_distinct(a: int, i: int, b: int, j: int)
    requires
        0 <= i < 0x1_0000_0000,
        0 <= j < 0x1_0000_0000,
    ensures
        element_id(a, i) == element_id(b, j) <==> a % 0x4000_0000 == b % 0x4000_0000 && i == j,
{
}

} // verus!
