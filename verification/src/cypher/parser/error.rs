use vstd::prelude::*;

verus! {

/// Error of the Cypher parser: a syntax error around a token position, or
/// the end of the input reached too early.
#[derive(Debug, Clone)]
pub enum ParserError {
    SyntaxError(usize),
    EndOfFile,
}

} // verus!
