use vstd::prelude::*;

verus! {

/// A literal constant as written in the source program.
///
/// Numbers are 64-bit signed integers; arithmetic on them wraps around on
/// overflow, as two's-complement machine arithmetic does.
#[derive(Debug)]
pub enum Literal {
    Str(String),
    Number(i64),
    Bool(bool),
    Null,
}

/// The source position of a syntactic element: the line it stands on and
/// the byte range it covers.
///
/// A position is the identity of a reference site: two textually identical
/// names at different sites are resolved independently, keyed by this value.
#[derive(Clone, Copy, Debug, PartialEq, Eq, Structural)]
pub struct Token {
    pub line: usize,
    pub start: usize,
    pub end: usize,
}

impl Token {
    pub fn new(line: usize, start: usize, end: usize) -> (t: Token)
        ensures
            t == (Token { line, start, end }),
    {
        Token { line, start, end }
    }
}

} // verus!
