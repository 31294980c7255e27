//! The failure taxonomy of the layout engine.

use vstd::prelude::*;

verus! {

/// A capability the engine deliberately does not provide. Meeting one of
/// these is always reported explicitly, never guessed around.
#[derive(Debug, Clone, Copy, PartialEq, Eq, Structural)]
pub enum Feature {
    /// Width or character resolution through a composite font.
    CompositeFont,
    /// A hexadecimal string operand under the simple-font path.
    HexString,
    /// A raw byte with no entry in the special-codepoint table.
    RawByte(u8),
    /// A two-byte code other than the null pair.
    RawPair(u8, u8),
    /// The font-size operator.
    SetFontSize,
    /// A code-to-unicode table that does not follow the expected layout.
    ToUnicode,
}

/// Everything that can go wrong while one page is interpreted.
#[derive(Debug, Clone, PartialEq, Eq)]
pub enum PdfError {
    /// An operand had an unexpected shape or type for its operator.
    MalformedOperator { operator: Vec<u8>, operand_index: usize },
    /// A font resource name was absent from the page's font dictionary.
    MissingFont { name: Vec<u8> },
    /// A show-text operator ran before any font was selected.
    NoActiveFont,
    /// A character code outside a simple font's width table.
    GlyphOutOfRange { code: u8 },
    /// A capability the engine does not provide.
    Unsupported { feature: Feature },
    /// The bounding rectangle of a string with no members was requested.
    EmptyStringRect,
}

/// The mathematical shape of an error: byte strings appear as sequences,
/// so that contracts can say which error comes back without speaking of
/// allocation.
pub enum ErrView {
    MalformedOperator { operator: Seq<u8>, operand_index: int },
    MissingFont { name: Seq<u8> },
    NoActiveFont,
    GlyphOutOfRange { code: u8 },
    Unsupported { feature: Feature },
    EmptyStringRect,
}

impl View for PdfError {
    type V = ErrView;

    open spec fn view(&self) -> ErrView {
        match self {
            PdfError::MalformedOperator { operator, operand_index } => ErrView::MalformedOperator {
                operator: operator@,
                operand_index: *operand_index as int,
            },
            PdfError::MissingFont { name } => ErrView::MissingFont { name: name@ },
            PdfError::NoActiveFont => ErrView::NoActiveFont,
            PdfError::GlyphOutOfRange { code } => ErrView::GlyphOutOfRange { code: *code },
            PdfError::Unsupported { feature } => ErrView::Unsupported { feature: *feature },
            PdfError::EmptyStringRect => ErrView::EmptyStringRect,
        }
    }
}

} // verus!
