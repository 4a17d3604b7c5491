pub mod kind;

pub use kind::SyntaxKind;
