use vstd::prelude::*;

verus! {

/// The kind of a token of a Cypher query.
#[derive(Debug, PartialEq, Eq, Clone, Copy, Structural)]
pub enum TokenType {
    Integer,
    Float,
    Plus,
    Minus,
    Divide,
    Mult,
    True,
    False,
    And,
    Or,
    Match,
    Create,
    Delete,
    Where,
    Return,
    OpenParenthesis,
    CloseParenthesis,
    OpenBracket,
    CloseBracket,
    Identifier,
    Colon,
    Comma,
    OpenBrace,
    CloseBrace,
    LeftSourceRel,
    RightTargetRel,
    LeftTargetRel,
    RightSourceRel,
    UndirectedRel,
    Pipe,
    StringType,
    Equals,
    Dot,
    Parameter,
    GreaterThan,
    LessThan,
    GreaterThanOrEqual,
    LessThanOrEqual,
}

/// A token of a query: its kind, the positions where it begins and ends,
/// and its text.
#[derive(Debug, PartialEq)]
pub struct Token<'a> {
    pub token_type: TokenType,
    pub begin: usize,
    pub end: usize,
    pub content: &'a str,
}

impl<'a> Token<'a> {
    pub fn new(ttype: TokenType, beg: usize, end: usize, token_expr: &str) -> (r: Token)
        ensures
            r.token_type == ttype,
            r.begin == beg,
            r.end == end,
            r.content == token_expr,
    {
        Token { token_type: ttype, begin: beg, end: end, content: token_expr }
    }

    /// The number of positions the token spans.
    pub fn size(&self) -> (r: usize)
        requires
            self.begin <= self.end,
        ensures
            r == self.end - self.begin,
    {
        self.end - self.begin
    }

    /// The token's text.
    pub fn to_string(&self) -> (r: String)
        ensures
            r@ == self.content@,
    {
        self.content.to_owned()
    }
}

} // verus!
