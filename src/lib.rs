//! Front end of a small expression-oriented language: interned identifiers,
//! a lexer, a diagnostic model, a parser core, operators and type terms.
use vstd::prelude::*;

pub mod error;
pub mod lexer;
pub mod operator;
pub mod parser;
pub mod strings;
pub mod transform;
pub mod types;

pub use error::{Error, ErrorKind};
pub use lexer::{Token, TokenKind};
pub use operator::Operator;
pub use strings::{Interner, Symbol};
pub use types::Type;

verus! {

/// A half-open range `start..end` of byte offsets into a source buffer.
#[derive(Debug, Clone, Copy, PartialEq, Eq, Hash, Structural)]
pub struct Span {
    pub start: usize,
    pub end: usize,
}

impl Span {
    pub fn new(start: usize, end: usize) -> (r: Span)
        ensures
            r == (Span { start, end }),
    {
        Span { start, end }
    }
}

} // verus!
