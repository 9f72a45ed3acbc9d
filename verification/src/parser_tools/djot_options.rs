//! Per-feature selection for djot import/export.
//!
//! The djot importer and exporter round-trip a set of *optional* block-level
//! attributes through djot's native `{key=value}` block attribute syntax (e.g.
//! `{alignment=center}` on the line before a paragraph). These two option
//! structs let a caller choose which of those attributes are carried. Everything
//! else (headings, lists, tables, blockquotes, code blocks and all inline
//! formatting) is always imported/exported and is not gated.
//!
//! Both structs default to **all enabled**: the fully lossless round-trip. Use
//! [`DjotImportOptions::none`] / [`DjotExportOptions::none`] to restrict the
//! round-trip to the core structural and inline feature set only.
//!
//! The attribute keys used on the wire are the field names. Block attributes are
//! only emitted/read for standalone paragraphs and headings; list items, code
//! blocks and table cells normalise their block styling away.
use vstd::prelude::*;

verus! {

/// Selects which optional block attributes the djot **importer** applies to the
/// document model. An attribute present in the source but disabled here is
/// parsed and discarded, exactly like an unrepresentable construct.
#[derive(Clone, Copy, Debug, PartialEq, Eq, Structural)]
pub struct DjotImportOptions {
    /// Apply paragraph alignment from `{alignment=left|right|center|justify}`.
    pub alignment: bool,
    /// Apply line height from `{line_height=<int>}`.
    pub line_height: bool,
    /// Apply text direction from `{direction=ltr|rtl}`.
    pub direction: bool,
    /// Apply non-breakable lines from `{non_breakable_lines=true|false}`.
    pub non_breakable_lines: bool,
    /// Apply a page break before the block from `{page_break_before=true|false}`.
    pub page_break_before: bool,
    /// Apply block background color from `{background_color="<value>"}`.
    pub background_color: bool,
    /// Apply the block's own space-above from `{top_margin=<int>}`.
    pub top_margin: bool,
    /// Apply the block's own first-line indent from `{text_indent=<int>}`.
    pub text_indent: bool,
    /// Apply the enclosing blockquote's role from `{semantic_role=epigraph}`.
    pub semantic_role: bool,
}

impl DjotImportOptions {
    /// Every optional block attribute enabled.
    pub open spec fn lossless() -> DjotImportOptions {
        DjotImportOptions {
            alignment: true,
            line_height: true,
            direction: true,
            non_breakable_lines: true,
            page_break_before: true,
            background_color: true,
            top_margin: true,
            text_indent: true,
            semantic_role: true,
        }
    }

    /// Every optional block attribute enabled: the lossless default.
    pub fn all() -> (options: Self)
        ensures
            options == (DjotImportOptions {
                alignment: true,
                line_height: true,
                direction: true,
                non_breakable_lines: true,
                page_break_before: true,
                background_color: true,
                top_margin: true,
                text_indent: true,
                semantic_role: true,
            }),
    {
        DjotImportOptions {
            alignment: true,
            line_height: true,
            direction: true,
            non_breakable_lines: true,
            page_break_before: true,
            background_color: true,
            top_margin: true,
            text_indent: true,
            semantic_role: true,
        }
    }

    /// No optional block attribute: only the core structural and inline feature
    /// set.
    pub fn none() -> (options: Self)
        ensures
            options == (DjotImportOptions {
                alignment: false,
                line_height: false,
                direction: false,
                non_breakable_lines: false,
                page_break_before: false,
                background_color: false,
                top_margin: false,
                text_indent: false,
                semantic_role: false,
            }),
    {
        DjotImportOptions {
            alignment: false,
            line_height: false,
            direction: false,
            non_breakable_lines: false,
            page_break_before: false,
            background_color: false,
            top_margin: false,
            text_indent: false,
            semantic_role: false,
        }
    }
}

impl Default for DjotImportOptions {
    fn default() -> (options: Self)
        ensures
            options == DjotImportOptions::lossless(),
    {
        Self::all()
    }
}

/// Selects which optional block attributes the djot **exporter** emits as
/// `{key=value}` block attributes. A disabled attribute is omitted from the
/// output even when the model carries a value for it.
#[derive(Clone, Copy, Debug, PartialEq, Eq, Structural)]
pub struct DjotExportOptions {
    /// Emit paragraph alignment as `{alignment=left|right|center|justify}`.
    pub alignment: bool,
    /// Emit line height as `{line_height=<int>}`.
    pub line_height: bool,
    /// Emit text direction as `{direction=ltr|rtl}`.
    pub direction: bool,
    /// Emit non-breakable lines as `{non_breakable_lines=true|false}`.
    pub non_breakable_lines: bool,
    /// Emit a page break before the block as `{page_break_before=true|false}`.
    pub page_break_before: bool,
    /// Emit block background color as `{background_color="<value>"}`.
    pub background_color: bool,
    /// Emit the block's own space-above as `{top_margin=<int>}`.
    pub top_margin: bool,
    /// Emit the block's own first-line indent as `{text_indent=<int>}`.
    pub text_indent: bool,
    /// Emit the enclosing blockquote's role as `{semantic_role=epigraph}`.
    pub semantic_role: bool,
}

impl DjotExportOptions {
    /// Every optional block attribute enabled: the lossless default.
    pub fn all() -> (options: Self)
        ensures
            options == (DjotExportOptions {
                alignment: true,
                line_height: true,
                direction: true,
                non_breakable_lines: true,
                page_break_before: true,
                background_color: true,
                top_margin: true,
                text_indent: true,
                semantic_role: true,
            }),
    {
        DjotExportOptions {
            alignment: true,
            line_height: true,
            direction: true,
            non_breakable_lines: true,
            page_break_before: true,
            background_color: true,
            top_margin: true,
            text_indent: true,
            semantic_role: true,
        }
    }

    /// No optional block attribute: only the core structural and inline feature
    /// set.
    pub fn none() -> (options: Self)
        ensures
            options == (DjotExportOptions {
                alignment: false,
                line_height: false,
                direction: false,
                non_breakable_lines: false,
                page_break_before: false,
                background_color: false,
                top_margin: false,
                text_indent: false,
                semantic_role: false,
            }),
    {
        DjotExportOptions {
            alignment: false,
            line_height: false,
            direction: false,
            non_breakable_lines: false,
            page_break_before: false,
            background_color: false,
            top_margin: false,
            text_indent: false,
            semantic_role: false,
        }
    }
}

impl Default for DjotExportOptions {
    fn default() -> (options: Self)
        ensures
            options == (DjotExportOptions {
                alignment: true,
                line_height: true,
                direction: true,
                non_breakable_lines: true,
                page_break_before: true,
                background_color: true,
                top_margin: true,
                text_indent: true,
                semantic_role: true,
            }),
    {
        Self::all()
    }
}

} // verus!
