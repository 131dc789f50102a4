//! Parser building blocks: token records, locations and the syntax lexer.
pub mod parser;

use vstd::prelude::*;

verus! {

/// A token of the parser: its type and its offsets.
pub struct Token {
    pub token_type: TokenType,
    pub start: usize,
    pub end: usize,
}

/// A range of the source with the line and column where it starts.
pub struct Location {
    pub start: usize,
    pub end: usize,
    pub line: usize,
    pub column: usize,
}

/// A node of the syntax tree.
pub struct Node;

/// The token source of the parser.  It holds no tokens: setting a source keeps
/// nothing, walking the tokens calls nothing, and it is always at the end of input.
pub struct TokenStream;

impl TokenStream {
    pub fn new() -> (r: Self) {
        TokenStream
    }

    /// Takes a source; nothing is kept.
    pub fn set_source(&mut self, source: &str) {
    }

    /// Walks the tokens, of which there are none: `callback` is never called.
    pub fn for_each_token<F>(&self, callback: F)
        where
            F: FnMut(Token),
    {
    }

    /// Always at the end of input.
    pub fn eof(&self) -> (r: bool)
        ensures
            r,
    {
        true
    }
}

/// Whether the text ends a comment, with `*/` as its last two characters.
pub open spec fn closes_comment(s: Seq<char>, end: int) -> bool {
    end >= 2 && s[end - 2] == '*' && s[end - 1] == '/'
}

/// The text of a comment that spans `start..end` of `s`: what follows `/*`, up to
/// the closing `*/` where the comment is closed and to its end where it is not.
pub open spec fn comment_text(s: Seq<char>, start: int, end: int) -> Seq<char> {
    if closes_comment(s, end) {
        s.subrange(start + 2, end - 2)
    } else {
        s.subrange(start + 2, end)
    }
}

/// The text of the comment token that spans `start..end` of `source`.  A closed
/// comment must be long enough to hold both `/*` and `*/`.
pub fn comment_value(source: &str, start: usize, end: usize) -> (r: String)
    requires
        start + 2 <= end <= source@.len(),
        closes_comment(source@, end as int) ==> start + 4 <= end,
    ensures
        r@ == comment_text(source@, start as int, end as int),
{
    let closed = end >= 2 && source.get_char(end - 2) == '*' && source.get_char(end - 1) == '/';
    if closed {
        source.substring_char(start + 2, end - 2).to_owned()
    } else {
        source.substring_char(start + 2, end).to_owned()
    }
}

/// The token types the parser tells apart.
#[derive(Debug, PartialEq, Eq, Structural)]
pub enum TokenType {
    Comment,
    AtKeyword,
    Semicolon,
    LeftCurlyBracket,
    RightCurlyBracket,
    EOF,
}

} // verus!
