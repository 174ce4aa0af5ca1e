//! A recognizer for a small C-like teaching language: a scanner that turns text
//! into tokens, and a recursive-descent parser that accepts a program or reports
//! the first error with its line.
mod lexer;
mod parser;
mod message;
pub mod laws;
pub use lexer::{C1Lexer, C1Token, Token, tokenize};
pub use parser::{C1Parser, Expected, ParseError};

use vstd::prelude::*;
use vstd::string::StringSliceAdditionalSpecFns;

verus! {

/// The outcome of checking a program: accepted, or the first error.
pub type ParseResult = Result<(), ParseError>;

/// The verdict on a whole source text.
pub open spec fn spec_parse_text(s: Seq<u8>) -> ParseResult {
    parser::verdict(lexer::spec_tokens(s), 0)
}

/// Scans and parses `text` as a whole program.
pub fn parse_text(text: &str) -> (r: ParseResult)
    requires
        text.spec_bytes().len() < usize::MAX,
    ensures
        r == spec_parse_text(text.spec_bytes()),
{
    let mut parser = C1Parser::new(C1Lexer::new(text));
    parser.parse()
}

} // verus!
