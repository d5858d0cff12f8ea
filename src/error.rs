//! Why a font could not be loaded.

use vstd::prelude::*;

verus! {

/// A required integer field of the header line.
#[derive(Debug, Clone, Copy, PartialEq, Eq, Structural)]
pub enum HeaderField {
    Height,
    Baseline,
    MaxLength,
    OldLayout,
    CommentLines,
}

/// The reasons a font fails to load. Every one of them is fatal: a font
/// loads completely or not at all.
#[derive(Debug, Clone, Copy, PartialEq, Eq, Structural)]
pub enum FontError {
    /// The font source could not be read.
    IoFailure,
    /// The header line has too few tokens, its signature token is too
    /// short, or its height or comment count cannot describe a font.
    MalformedHeader,
    /// A required header integer does not parse.
    InvalidField(HeaderField),
    /// The file ends before the comment block or a glyph does.
    TruncatedFile,
    /// A glyph row has fewer than three characters before its end marks
    /// are stripped.
    GlyphRowTooShort,
    /// The lines after the required glyphs do not split into whole
    /// code-tagged entries.
    MalformedCodetagSection,
    /// A tag line does not start with a code in hex, octal or decimal.
    InvalidCodetagCode,
}

} // verus!
