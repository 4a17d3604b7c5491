use vstd::prelude::*;

verus! {

/// The classification of one token.
#[derive(Debug, Clone, Copy, PartialEq, Eq, Hash, Structural)]
pub enum SyntaxKind {
    /// A run of literal text (also a line break inside tag-body mode).
    MarkdownText,
    /// A well-formed tag.
    DoubleCurlyBraces,
    /// A malformed or unterminated tag.
    Variables,
    /// The content of a statement tag.
    Keywords,
    /// The end of the input.
    EOF,
}

} // verus!
