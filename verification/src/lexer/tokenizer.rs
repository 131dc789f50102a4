//! Tokens as the microsyntax matchers read them: a type and the token's text.
use vstd::prelude::*;
use vstd::utf8::encode_utf8;

verus! {

/// The type of a token.
#[derive(Clone, Copy, Debug, PartialEq, Eq, Structural)]
pub enum TokenType {
    Ident,
    Function,
    AtKeyword,
    Hash,
    String,
    BadString,
    Url,
    BadUrl,
    Delim,
    Number,
    Percentage,
    Dimension,
    WhiteSpace,
    CDO,
    CDC,
    Colon,
    Semicolon,
    Comma,
    LeftSquareBracket,
    RightSquareBracket,
    LeftParenthesis,
    RightParenthesis,
    LeftCurlyBracket,
    RightCurlyBracket,
    Comment,
    EOF,
}

/// A token: its type and its text.
#[derive(Debug)]
pub struct Token {
    pub token_type: TokenType,
    pub value: String,
}

/// The bytes (UTF-8) of a token's text.
pub open spec fn value_bytes(t: Token) -> Seq<u8> {
    encode_utf8(t.value@)
}

/// The type of token `k` of a sequence; the end of input past its end.
pub open spec fn kind_at(ts: Seq<Token>, k: int) -> TokenType {
    if 0 <= k < ts.len() {
        ts[k].token_type
    } else {
        TokenType::EOF
    }
}

/// The bytes of token `k` of a sequence; none past its end.
pub open spec fn bytes_at(ts: Seq<Token>, k: int) -> Seq<u8> {
    if 0 <= k < ts.len() {
        value_bytes(ts[k])
    } else {
        seq![]
    }
}

/// A token as a tokenizer makes it: its text is not empty, and a number token that
/// starts with a sign has more after the sign.
pub open spec fn well_formed_token(t: Token) -> bool {
    let b = value_bytes(t);
    &&& b.len() > 0
    &&& (t.token_type == TokenType::Number && (b[0] == 0x2B || b[0] == 0x2D)) ==> b.len() >= 2
}

/// Every token of the sequence up to index `last` is well formed.
pub open spec fn well_formed_upto(ts: Seq<Token>, last: int) -> bool {
    forall|k: int| 0 <= k < ts.len() && k <= last ==> #[trigger] well_formed_token(ts[k])
}

/// A digit byte.
pub open spec fn digit_byte(b: u8) -> bool {
    0x30 <= b <= 0x39
}

/// A hex digit byte.
pub open spec fn hex_byte(b: u8) -> bool {
    digit_byte(b) || (0x41 <= b <= 0x46) || (0x61 <= b <= 0x66)
}

/// The byte at `offset` exists and, with A..Z lowercased, equals `reference`.
pub open spec fn byte_matches(b: Seq<u8>, offset: int, reference: u8) -> bool {
    0 <= offset < b.len() && (if 0x41 <= b[offset] <= 0x5A { b[offset] + 32 } else { b[offset] as int }) == reference
}

/// The token is a delim whose text starts with `code`.
pub open spec fn delim_is(ts: Seq<Token>, k: int, code: u8) -> bool {
    kind_at(ts, k) == TokenType::Delim && bytes_at(ts, k)[0] == code
}

/// The bytes of a token's text.
pub fn value_bytes_of(t: &Token) -> (r: &[u8])
    ensures
        r@ == value_bytes(*t),
{
    t.value.as_str().as_bytes()
}

/// The type of token `k`, or the end of input past the end of the sequence.
pub fn kind_of(ts: &[Token], k: usize) -> (r: TokenType)
    ensures
        r == kind_at(ts@, k as int),
{
    if k < ts.len() {
        ts[k].token_type
    } else {
        TokenType::EOF
    }
}

pub fn is_digit_byte(b: u8) -> (r: bool)
    ensures
        r == digit_byte(b),
{
    0x30 <= b && b <= 0x39
}

pub fn is_hex_byte(b: u8) -> (r: bool)
    ensures
        r == hex_byte(b),
{
    is_digit_byte(b) || (0x41 <= b && b <= 0x46) || (0x61 <= b && b <= 0x66)
}

/// Compares the byte at `offset`, lowercased for A..Z, with `reference`.
pub fn byte_is(b: &[u8], offset: usize, reference: u8) -> (r: bool)
    ensures
        r == byte_matches(b@, offset as int, reference),
{
    if offset < b.len() {
        let code = b[offset];
        if 0x41 <= code && code <= 0x5A {
            code as u16 + 32 == reference as u16
        } else {
            code == reference
        }
    } else {
        false
    }
}

/// Token `k` is a delim whose text starts with `code`.
pub fn is_delim_at(ts: &[Token], k: usize, code: u8) -> (r: bool)
    requires
        well_formed_upto(ts@, k as int),
    ensures
        r == delim_is(ts@, k as int, code),
{
    if k < ts.len() && ts[k].token_type == TokenType::Delim {
        assert(well_formed_token(ts@[k as int]));
        value_bytes_of(&ts[k])[0] == code
    } else {
        false
    }
}

} // verus!
