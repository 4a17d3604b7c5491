//! Tokens, lexing modes and diagnostics.
use crate::parser::SyntaxKind;
use vstd::prelude::*;

verus! {

/// The grammar context that is active while the next token is scanned.
#[derive(Debug, Clone, Copy, PartialEq, Eq, Structural)]
pub enum LexMode {
    /// Literal text.
    Markdown,
    /// The body of an expression tag, `{{ ... }}`.
    Code,
    /// The body of a statement tag, `{% ... %}`.
    Keywords,
}

/// What was wrong with a malformed tag.
#[derive(Debug, Clone, Copy, PartialEq, Eq, Structural)]
pub enum Diagnostic {
    /// A `{{` tag reached a line break or the end of the input before `}`.
    ExpectedClosingBraces,
    /// A lone `{` reached a line break or the end of the input before `{`.
    ExpectedOpeningBraces,
    /// A `%` tag reached a line break or the end of the input before `%`.
    ExpectedClosingPercents,
}

/// The text of each diagnostic.
pub open spec fn diagnostic_text(d: Diagnostic) -> Seq<char> {
    match d {
        Diagnostic::ExpectedClosingBraces => "expected closing double brace"@,
        Diagnostic::ExpectedOpeningBraces => "expected opening double brace"@,
        Diagnostic::ExpectedClosingPercents => "expected closing double percent"@,
    }
}

impl Diagnostic {
    /// The message that describes the diagnostic.
    pub fn message(&self) -> (r: &'static str)
        ensures
            r@ == diagnostic_text(*self),
    {
        match self {
            Diagnostic::ExpectedClosingBraces => "expected closing double brace",
            Diagnostic::ExpectedOpeningBraces => "expected opening double brace",
            Diagnostic::ExpectedClosingPercents => "expected closing double percent",
        }
    }
}

/// One token: its kind, the byte range of the source it covers, and the
/// diagnostic found while it was scanned.
#[derive(Debug, Clone, Copy, PartialEq, Eq, Structural)]
pub struct Token {
    pub kind: SyntaxKind,
    pub start: usize,
    pub end: usize,
    pub diagnostic: Option<Diagnostic>,
}

/// Why no token could be produced.
#[derive(Debug, Clone, Copy, PartialEq, Eq, Structural)]
pub enum LexError {
    /// The statement-tag grammar is not defined yet.
    UnsupportedMode,
}

} // verus!
