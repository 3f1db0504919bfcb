//! Syntax highlighting of fenced code blocks in a markdown event stream.
//!
//! The engine turns a tokenized code block into HTML in which every run of
//! tokens of one [`Kind`] is wrapped in one inline tag, and every source
//! character is escaped exactly once.
pub mod block;
pub mod engine;
pub mod escape;
pub mod kind;

pub use block::{
    highlight_block, intercept, language_of, math_supported, render_fenced, render_math, Language,
    Outcome, Piece,
};
pub use engine::{classify, emit, highlight, Highlight, Lexeme, Span};
pub use escape::write_escaped;
pub use kind::Kind;
