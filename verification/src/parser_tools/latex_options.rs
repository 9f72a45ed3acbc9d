//! Preamble + image policy for LaTeX export.
//!
//! LaTeX carries no comment support: there is no LaTeX importer, so an anchored
//! comment thread would be structurally one-way. It also has no page geometry or
//! base-typography knobs: `\documentclass` and its own options already own page
//! size and base font.
use vstd::prelude::*;

verus! {

/// Which `\documentclass` to open with, whether to wrap the rendered body in a full
/// compilable document at all, and whether inline images are emitted or dropped.
///
/// By [`Default`] an empty [`document_class`](Self::document_class) falls back to
/// `"article"` inside the writer, and images are emitted.
#[derive(Clone, Debug, PartialEq, Eq)]
pub struct LatexExportOptions {
    /// The `\documentclass{..}` to open the document with, used only when
    /// [`include_preamble`](Self::include_preamble) is set. Empty: `"article"`, the
    /// writer's fallback.
    pub document_class: String,
    /// Wrap the rendered body in a full document, plus the small fixed preamble the
    /// writer needs. `false` returns just the body.
    pub include_preamble: bool,
    /// Drop inline images instead of emitting `\includegraphics{..}`.
    pub omit_images: bool,
}

impl Default for LatexExportOptions {
    fn default() -> (options: Self)
        ensures
            options.document_class@.len() == 0,
            !options.include_preamble,
            !options.omit_images,
    {
        LatexExportOptions {
            document_class: String::new(),
            include_preamble: false,
            omit_images: false,
        }
    }
}

} // verus!
