//! Page geometry + base typography for DOCX export.
//!
//! **Everything is in DOCX units**: twips (1/1440 inch) for lengths, half-points for
//! the font size, so this crate stays free of any point/inch or preset semantics.
//!
//! Per-block **RTL is not an option here**: it is read from each block's own
//! direction.
use vstd::prelude::*;

use crate::entities::Alignment;
use crate::parser_tools::comment_options::DocumentComments;
use crate::parser_tools::heading_ramp::{ramp_level, scale_size, scaled_size};
use crate::parser_tools::image_options::ExportImages;
use crate::parser_tools::mark_options::DocumentMarks;

verus! {

/// How one heading level's paragraph style is **defined** in the output.
///
/// Paragraphs carrying a heading level reference a style id, and a referenced but
/// undefined id is not an error: the reader silently substitutes its own built-in.
#[derive(Clone, Copy, Debug, PartialEq, Eq, Structural)]
pub struct DocxHeadingStyle {
    /// Size in half-points (24 = 12 pt). `None`: the document's body size.
    pub size_half_points: Option<usize>,
    pub bold: bool,
    pub italic: bool,
    /// Paragraph alignment. `None`: inherit (left, or right in an RTL paragraph).
    pub alignment: Option<Alignment>,
    /// Space above, in twips (points times 20).
    pub space_before_twips: Option<i32>,
    /// Space below, in twips.
    pub space_after_twips: Option<i32>,
    /// Keep the heading on the same page as what follows it, so a chapter title can never
    /// be left stranded alone at the foot of a page.
    pub keep_with_next: bool,
    /// Start the heading on a new page. This is the *style-level* rule; a single block can
    /// also ask for it, and either one is enough.
    pub page_break_before: bool,
}

impl Default for DocxHeadingStyle {
    fn default() -> (style: Self)
        ensures
            style == (DocxHeadingStyle {
                size_half_points: None,
                bold: true,
                italic: false,
                alignment: None,
                space_before_twips: None,
                space_after_twips: None,
                keep_with_next: true,
                page_break_before: false,
            }),
    {
        DocxHeadingStyle {
            size_half_points: None,
            bold: true,
            italic: false,
            alignment: None,
            space_before_twips: None,
            space_after_twips: None,
            keep_with_next: true,
            page_break_before: false,
        }
    }
}

/// The style of one level of the conventional ramp.
pub open spec fn docx_ramp_style(body_half_points: nat, i: int) -> DocxHeadingStyle {
    DocxHeadingStyle {
        size_half_points: Some(
            scaled_size(body_half_points, ramp_level(i).scale) as usize,
        ),
        bold: true,
        italic: ramp_level(i).italic,
        alignment: None,
        space_before_twips: Some(ramp_level(i).before),
        space_after_twips: Some(ramp_level(i).after),
        keep_with_next: true,
        page_break_before: false,
    }
}

/// The styles of the conventional ramp.
pub open spec fn docx_ramp(body_half_points: nat) -> Seq<DocxHeadingStyle> {
    Seq::new(6, |i: int| docx_ramp_style(body_half_points, i))
}

impl DocxHeadingStyle {
    /// One level of the conventional ramp.
    fn level(body_half_points: usize, scale: u32, before: i32, after: i32, italic: bool) -> (style:
        Self)
        requires
            scale <= 0x100_0000,
        ensures
            style == (DocxHeadingStyle {
                size_half_points: Some(
                    scaled_size(body_half_points as nat, scale as nat) as usize,
                ),
                bold: true,
                italic,
                alignment: None,
                space_before_twips: Some(before),
                space_after_twips: Some(after),
                keep_with_next: true,
                page_break_before: false,
            }),
    {
        DocxHeadingStyle {
            size_half_points: Some(scale_size(body_half_points, scale)),
            bold: true,
            italic,
            alignment: None,
            space_before_twips: Some(before),
            space_after_twips: Some(after),
            keep_with_next: true,
            page_break_before: false,
        }
    }

    /// The conventional six-level ramp, scaled off `body_half_points`: each level a little
    /// smaller than the one above, bold, opening with space and never orphaned from its text.
    pub fn default_ramp(body_half_points: usize) -> (styles: Vec<Self>)
        ensures
            styles@ == docx_ramp(body_half_points as nat),
    {
        let styles = vec![
            DocxHeadingStyle::level(body_half_points, 15099494, 480, 240, false),
            DocxHeadingStyle::level(body_half_points, 12582912, 360, 180, false),
            DocxHeadingStyle::level(body_half_points, 10485760, 280, 140, false),
            DocxHeadingStyle::level(body_half_points, 9227469, 240, 120, false),
            DocxHeadingStyle::level(body_half_points, 8388608, 240, 120, false),
            DocxHeadingStyle::level(body_half_points, 8388608, 240, 120, true),
        ];
        assert(styles@ =~= docx_ramp(body_half_points as nat));
        styles
    }
}

/// Page geometry + base typography overrides for a DOCX export. Every field is optional; the
/// [`Default`] is "no overrides".
#[derive(Clone, Debug, PartialEq, Eq)]
pub struct DocxExportOptions {
    /// Page width in twips (1/1440 inch). `None`: the reader's default.
    pub page_width_twips: Option<u32>,
    /// Page height in twips. `None`: the reader's default.
    pub page_height_twips: Option<u32>,
    /// Top page margin in twips. `None`: the reader's default for that edge.
    pub margin_top_twips: Option<i32>,
    /// Bottom page margin in twips.
    pub margin_bottom_twips: Option<i32>,
    /// Left page margin in twips.
    pub margin_left_twips: Option<i32>,
    /// Right page margin in twips.
    pub margin_right_twips: Option<i32>,
    /// Base body font family. `None`: the reader's default.
    pub font_family: Option<String>,
    /// Base body font size in half-points (24 = 12 pt). `None`: the reader's default.
    pub font_half_points: Option<usize>,
    /// Body line spacing in twips (240 = single, 360 = one and a half, 480 = double),
    /// applied per body paragraph: headings keep their own style's spacing.
    pub line_spacing_twips: Option<i32>,
    /// First-line indent for body paragraphs, in twips. `None`/`0`: none.
    pub first_line_indent_twips: Option<i32>,
    /// Space after each body paragraph, in twips. `None`/`0`: none.
    pub paragraph_spacing_after_twips: Option<i32>,
    /// Justify body text; otherwise it is left-aligned (ragged), or right-aligned in an RTL
    /// block.
    pub justify: bool,
    /// Emit a running header carrying the page number (right-aligned).
    pub page_numbers: bool,
    /// Optional running-header text shown before the page number. Only used when
    /// [`page_numbers`](Self::page_numbers) is set.
    pub running_header: Option<String>,
    /// Definitions for heading levels 1 to 6, index 0 being level 1. Empty: the writer
    /// falls back to [`DocxHeadingStyle::default_ramp`] over the body size.
    pub heading_styles: Vec<DocxHeadingStyle>,
    /// Bytes for the document's inline images, keyed by their `src`. An image whose
    /// `src` is absent here is exported as its alt text instead of failing the export.
    pub images: ExportImages,
    /// Comment threads to anchor into the exported file, in the document's addressable
    /// character space. Empty: no comments are written.
    pub comments: DocumentComments,
    /// Named positions and ranges to anchor into the exported file as bookmarks, in the
    /// same space as [`comments`](Self::comments). Empty: none are written.
    pub marks: DocumentMarks,
}

/// Whether options override nothing.
pub open spec fn docx_overrides_nothing(options: DocxExportOptions) -> bool {
    &&& options.page_width_twips is None
    &&& options.page_height_twips is None
    &&& options.margin_top_twips is None
    &&& options.margin_bottom_twips is None
    &&& options.margin_left_twips is None
    &&& options.margin_right_twips is None
    &&& options.font_family is None
    &&& options.font_half_points is None
    &&& options.line_spacing_twips is None
    &&& options.first_line_indent_twips is None
    &&& options.paragraph_spacing_after_twips is None
    &&& !options.justify
    &&& !options.page_numbers
    &&& options.running_header is None
    &&& options.heading_styles@.len() == 0
    &&& options.images.deep_view().len() == 0
    &&& options.comments.deep_view().len() == 0
    &&& options.marks.deep_view().len() == 0
}

impl Default for DocxExportOptions {
    fn default() -> (options: Self)
        ensures
            docx_overrides_nothing(options),
    {
        DocxExportOptions {
            page_width_twips: None,
            page_height_twips: None,
            margin_top_twips: None,
            margin_bottom_twips: None,
            margin_left_twips: None,
            margin_right_twips: None,
            font_family: None,
            font_half_points: None,
            line_spacing_twips: None,
            first_line_indent_twips: None,
            paragraph_spacing_after_twips: None,
            justify: false,
            page_numbers: false,
            running_header: None,
            heading_styles: Vec::new(),
            images: ExportImages::new(),
            comments: DocumentComments::new(),
            marks: DocumentMarks::new(),
        }
    }
}

impl DocxExportOptions {
    /// No overrides.
    pub fn plain() -> (options: Self)
        ensures
            docx_overrides_nothing(options),
    {
        Self::default()
    }

    /// The heading styles to write, resolved: the caller's when it gave any, otherwise the
    /// default ramp scaled off whatever body size this export uses.
    pub fn resolved_heading_styles(&self) -> (styles: Vec<DocxHeadingStyle>)
        ensures
            styles@ == if self.heading_styles@.len() > 0 {
                self.heading_styles@
            } else {
                docx_ramp(
                    match self.font_half_points {
                        Some(size) => size as nat,
                        None => 24,
                    },
                )
            },
    {
        if self.heading_styles.is_empty() {
            let body: usize = match self.font_half_points {
                Some(size) => size,
                None => 24,
            };
            DocxHeadingStyle::default_ramp(body)
        } else {
            let styles = self.heading_styles.clone();
            assert(styles@ =~= self.heading_styles@);
            styles
        }
    }
}

} // verus!
