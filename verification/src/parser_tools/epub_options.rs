//! Book-level metadata for EPUB export.
//!
//! An EPUB package is built around title, author, language, and reading direction.
//! Every field here lands somewhere in the generated `.epub`, so [`Default`] picks
//! the most harmless values ("Untitled" title, empty author, `en` language, LTR)
//! rather than leaving them unset.
use vstd::prelude::*;

verus! {

/// Book-level metadata for an EPUB export. Every field is required by the container format in
/// some form, so [`Default`] picks the most reasonable placeholders.
#[derive(Clone, Debug, PartialEq, Eq)]
pub struct EpubExportOptions {
    /// Book title, used for the package's title and (when a chapter has no heading of its
    /// own) as that chapter's title too.
    pub title: String,
    /// Author name. Empty: no author is emitted.
    pub author: String,
    /// BCP-47/ISO 639-1 language code (e.g. `"en"`, `"fr"`). Empty: `"en"`.
    pub language: String,
    /// Right-to-left reading direction.
    pub rtl: bool,
}

impl Default for EpubExportOptions {
    fn default() -> (options: Self)
        ensures
            options.title@ == "Untitled"@,
            options.author@.len() == 0,
            options.language@ == "en"@,
            !options.rtl,
    {
        EpubExportOptions {
            title: "Untitled".to_string(),
            author: String::new(),
            language: "en".to_string(),
            rtl: false,
        }
    }
}

} // verus!
