//! Token type codes.
use vstd::prelude::*;

verus! {

/// The end of input.
pub const EOF: u8 = 0;
/// `<ident-token>`
pub const IDENT: u8 = 1;
/// `<function-token>`
pub const FUNCTION: u8 = 2;
/// `<at-keyword-token>`
pub const AT_KEYWORD: u8 = 3;
/// `<hash-token>`
pub const HASH: u8 = 4;
/// `<string-token>`
pub const STRING: u8 = 5;
/// `<bad-string-token>`
pub const BAD_STRING: u8 = 6;
/// `<url-token>`
pub const URL: u8 = 7;
/// `<bad-url-token>`
pub const BAD_URL: u8 = 8;
/// `<delim-token>`
pub const DELIM: u8 = 9;
/// `<number-token>`
pub const NUMBER: u8 = 10;
/// `<percentage-token>`
pub const PERCENTAGE: u8 = 11;
/// `<dimension-token>`
pub const DIMENSION: u8 = 12;
/// `<whitespace-token>`
pub const WHITE_SPACE: u8 = 13;
/// `<CDO-token>`
pub const CDO: u8 = 14;
/// `<CDC-token>`
pub const CDC: u8 = 15;
/// `<colon-token>` `:`
pub const COLON: u8 = 16;
/// `<semicolon-token>` `;`
pub const SEMICOLON: u8 = 17;
/// `<comma-token>` `,`
pub const COMMA: u8 = 18;
/// `<[-token>`
pub const LEFT_SQUARE_BRACKET: u8 = 19;
/// `<]-token>`
pub const RIGHT_SQUARE_BRACKET: u8 = 20;
/// `<(-token>`
pub const LEFT_PARENTHESIS: u8 = 21;
/// `<)-token>`
pub const RIGHT_PARENTHESIS: u8 = 22;
/// `<{-token>`
pub const LEFT_CURLY_BRACKET: u8 = 23;
/// `<}-token>`
pub const RIGHT_CURLY_BRACKET: u8 = 24;
/// A comment.
pub const COMMENT: u8 = 25;

} // verus!
