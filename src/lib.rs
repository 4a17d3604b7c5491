//! A mode-switching tokenizer for templates that mix literal text with
//! double-brace expression tags and double-percent statement tags.

pub mod parser;
pub mod scanner;
pub mod token;
pub mod model;
pub mod lexer;
pub mod laws;
