//! The `<urange>` microsyntax (CSS Syntax § 7.1): how many tokens a unicode range
//! such as `U+0001-00ff` or `U+00??` takes.
use vstd::prelude::*;
use crate::lexer::tokenizer::{
    byte_is, byte_matches, bytes_at, delim_is, hex_byte, is_delim_at, is_hex_byte, kind_at,
    kind_of, value_bytes, value_bytes_of, well_formed_token, well_formed_upto, Token, TokenType,
};

verus! {

/// `+`
pub const PLUS_SIGN: u8 = 0x2B;

/// `-`
pub const HYPHEN_MINUS: u8 = 0x2D;

/// `?`
pub const QUESTION_MARK: u8 = 0x3F;

/// `u`
pub const U: u8 = 0x75;

/// The run of hex digits of `b` from `pos`, with `hex_len` digits seen so far: the
/// number of digits; the full six when a dash (if allowed) follows at least one
/// digit, so that no question mark may follow the range; 0 on any other code point
/// or on more than six digits.
pub open spec fn hex_run(b: Seq<u8>, pos: int, allow_dash: bool, hex_len: int) -> int
    decreases b.len() - pos,
{
    if pos < 0 || pos >= b.len() {
        hex_len
    } else {
        let code = b[pos];
        if code == HYPHEN_MINUS && allow_dash && hex_len != 0 {
            6
        } else if !hex_byte(code) {
            0
        } else if hex_len + 1 > 6 {
            0
        } else {
            hex_run(b, pos + 1, allow_dash, hex_len + 1)
        }
    }
}

/// `hex_run` from `offset` with no digits seen yet.
pub open spec fn hex_sequence_length(b: Seq<u8>, offset: int, allow_dash: bool) -> int {
    hex_run(b, offset, allow_dash, 0)
}

/// Counting the question-mark delims from index `length`, with `consumed`
/// code points counted so far: the index after the last one, or 0 when more than
/// six are counted in all.
pub open spec fn question_marks(ts: Seq<Token>, consumed: int, length: int) -> int
    decreases ts.len() - length,
{
    if 0 <= length < ts.len() && delim_is(ts, length, QUESTION_MARK) {
        if consumed + 1 > 6 {
            0
        } else {
            question_marks(ts, consumed + 1, length + 1)
        }
    } else {
        length
    }
}

/// `question_marks`, or 0 when nothing was consumed before them.
pub open spec fn with_question_marks(ts: Seq<Token>, consumed: int, length: int) -> int {
    if consumed == 0 {
        0
    } else {
        question_marks(ts, consumed, length)
    }
}

/// How many tokens the `<urange>` at the start of the sequence takes (0 when there
/// is none).  `token` is the first token (absent at the end of input), and
/// `ts[k]` the token `k` places on, with `ts[0]` standing for the first token.
pub open spec fn urange_length(token: Option<Token>, ts: Seq<Token>) -> int {
    if token is None || token->0.token_type != TokenType::Ident || !byte_matches(value_bytes(token->0), 0, U) {
        0
    } else if ts.len() <= 1 {
        0
    } else {
        let t = ts[1];
        if delim_is(ts, 1, PLUS_SIGN) {
            if ts.len() <= 2 {
                0
            } else if kind_at(ts, 2) == TokenType::Ident {
                with_question_marks(ts, hex_sequence_length(bytes_at(ts, 2), 0, true), 3)
            } else if delim_is(ts, 2, QUESTION_MARK) {
                with_question_marks(ts, 1, 3)
            } else {
                0
            }
        } else if t.token_type == TokenType::Number {
            let consumed = hex_sequence_length(bytes_at(ts, 1), 1, true);
            if consumed == 0 {
                0
            } else if ts.len() <= 2 {
                2
            } else if kind_at(ts, 2) == TokenType::Dimension || kind_at(ts, 2) == TokenType::Number {
                if bytes_at(ts, 2)[0] != HYPHEN_MINUS || hex_sequence_length(bytes_at(ts, 2), 1, false) == 0 {
                    0
                } else {
                    3
                }
            } else {
                with_question_marks(ts, consumed, 2)
            }
        } else if t.token_type == TokenType::Dimension {
            with_question_marks(ts, hex_sequence_length(bytes_at(ts, 1), 1, true), 2)
        } else {
            0
        }
    }
}

fn starts_with(token: &Token, code: u8) -> (r: bool)
    requires
        well_formed_token(*token),
    ensures
        r == (value_bytes(*token)[0] == code),
{
    value_bytes_of(token)[0] == code
}

fn hex_sequence(token: &Token, offset: usize, allow_dash: bool) -> (r: usize)
    ensures
        r == hex_sequence_length(value_bytes(*token), offset as int, allow_dash),
        r <= 7,
{
    let mut hex_len: usize = 0;
    let bytes = value_bytes_of(token);
    let mut pos = offset;
    while pos < bytes.len()
        invariant
            hex_len <= 6,
            bytes@ == value_bytes(*token),
            hex_run(bytes@, pos as int, allow_dash, hex_len as int) == hex_sequence_length(bytes@, offset as int, allow_dash),
        decreases bytes.len() - pos,
    {
        let code = bytes[pos];
        if code == HYPHEN_MINUS && allow_dash && hex_len != 0 {
            return 6;
        }
        if !is_hex_byte(code) {
            return 0;
        }
        hex_len += 1;
        if hex_len > 6 {
            return 0;
        }
        pos += 1;
    }
    hex_len
}

fn with_question_mark_sequence(consumed: usize, length: usize, tokens: &[Token]) -> (r: usize)
    requires
        well_formed_upto(tokens@, 9),
        length <= 3,
        consumed <= 7,
        tokens@.len() < usize::MAX,
    ensures
        r == with_question_marks(tokens@, consumed as int, length as int),
{
    if consumed == 0 {
        return 0;
    }
    let mut count = consumed;
    let mut end = length;
    while end < tokens.len()
        invariant
            well_formed_upto(tokens@, 9),
            length <= 3,
            1 <= count <= 7,
            consumed >= 1,
            end == length + count - consumed,
            question_marks(tokens@, count as int, end as int) == question_marks(tokens@, consumed as int, length as int),
        ensures
            question_marks(tokens@, count as int, end as int) == end,
        decreases tokens.len() - end,
    {
        if !is_delim_at(tokens, end, QUESTION_MARK) {
            break;
        }
        count += 1;
        if count > 6 {
            return 0;
        }
        end += 1;
    }
    end
}

/// How many tokens the `<urange>` at the start of the sequence takes, or 0 when
/// there is none.  `token` is the first token (absent at the end of input);
/// `tokens[k]` is the token `k` places on, with `tokens[0]` standing for the first.
/// The first ten tokens, all that a range can look at, must be well formed.
pub fn urange(token: Option<Token>, tokens: &[Token]) -> (r: usize)
    requires
        token matches Some(t) ==> well_formed_token(t),
        well_formed_upto(tokens@, 9),
        tokens@.len() < usize::MAX - 3,
    ensures
        r == urange_length(token, tokens@),
{
    let mut length: usize = 0;
    match token {
        None => {
            return 0;
        },
        Some(t) => {
            if t.token_type != TokenType::Ident || !byte_is(value_bytes_of(&t), 0, U) {
                return 0;
            }
        },
    }
    length += 1;
    if length >= tokens.len() {
        return 0;
    }
    let token = &tokens[length];
    assert(well_formed_token(tokens@[1]));
    if is_delim_at(tokens, length, PLUS_SIGN) {
        length += 1;
        if length >= tokens.len() {
            return 0;
        }
        let next_token = &tokens[length];
        assert(well_formed_token(tokens@[2]));
        if next_token.token_type == TokenType::Ident {
            return with_question_mark_sequence(hex_sequence(next_token, 0, true), length + 1, tokens);
        }
        if is_delim_at(tokens, length, QUESTION_MARK) {
            return with_question_mark_sequence(1, length + 1, tokens);
        }
        return 0;
    }
    if token.token_type == TokenType::Number {
        let consumed_hex_length = hex_sequence(token, 1, true);
        if consumed_hex_length == 0 {
            return 0;
        }
        length += 1;
        if length >= tokens.len() {
            return length;
        }
        let next_token = &tokens[length];
        assert(well_formed_token(tokens@[2]));
        if next_token.token_type == TokenType::Dimension || next_token.token_type == TokenType::Number {
            if !starts_with(next_token, HYPHEN_MINUS) || hex_sequence(next_token, 1, false) == 0 {
                return 0;
            }
            return length + 1;
        }
        return with_question_mark_sequence(consumed_hex_length, length, tokens);
    }
    if token.token_type == TokenType::Dimension {
        return with_question_mark_sequence(hex_sequence(token, 1, true), length + 1, tokens);
    }
    0
}

proof fn lemma_hex_run_to_end(b: Seq<u8>, k: int, n: int)
    requires
        1 <= k <= b.len(),
        b.len() == n + 1,
        n <= 6,
        k - 1 <= 6,
        forall|i: int| 1 <= i < b.len() ==> hex_byte(#[trigger] b[i]),
    ensures
        hex_run(b, k, true, k - 1) == n,
    decreases b.len() - k,
{
    if k < b.len() {
        assert(hex_byte(b[k]));
        lemma_hex_run_to_end(b, k + 1, n);
    }
}

/// `u` followed by a dimension written `+` and one to six hex digits, with no
/// question mark after it, is a range of two tokens: the hex digits are counted
/// after the dimension's sign.
pub proof fn u_then_signed_hex_dimension(token: Token, ts: Seq<Token>, hex: Seq<u8>)
    requires
        token.token_type == TokenType::Ident,
        value_bytes(token).len() > 0,
        value_bytes(token)[0] == U || value_bytes(token)[0] == 0x55,
        ts.len() >= 2,
        ts[1].token_type == TokenType::Dimension,
        1 <= hex.len() <= 6,
        forall|i: int| 0 <= i < hex.len() ==> (0x30 <= #[trigger] hex[i] <= 0x39) || (0x41 <= hex[i] <= 0x46) || (
        0x61 <= hex[i] <= 0x66),
        value_bytes(ts[1]) == seq![PLUS_SIGN] + hex,
        !(ts.len() > 2 && ts[2].token_type == TokenType::Delim && value_bytes(ts[2])[0] == QUESTION_MARK),
    ensures
        urange_length(Some(token), ts) == 2,
{
    assert(byte_matches(value_bytes(token), 0, U));
    let b = value_bytes(ts[1]);
    assert(bytes_at(ts, 1) == b);
    assert forall|i: int| 1 <= i < b.len() implies hex_byte(#[trigger] b[i]) by {
        assert(b[i] == hex[i - 1]);
    }
    lemma_hex_run_to_end(b, 1, hex.len() as int);
    assert(hex_sequence_length(b, 1, true) == hex.len());
    assert(!delim_is(ts, 1, PLUS_SIGN));
    if ts.len() > 2 {
        assert(bytes_at(ts, 2) == value_bytes(ts[2]));
    }
    assert(!delim_is(ts, 2, QUESTION_MARK));
}

} // verus!
