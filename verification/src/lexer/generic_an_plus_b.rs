//! The `An+B` microsyntax (CSS Syntax § 6): how many tokens of a sequence an
//! `An+B` value takes.
use vstd::prelude::*;
use crate::lexer::tokenizer::{
    byte_is, byte_matches, bytes_at, delim_is, digit_byte, is_delim_at, is_digit_byte, kind_at,
    kind_of, value_bytes, value_bytes_of, well_formed_token, well_formed_upto, Token, TokenType,
};

verus! {

/// `+`
pub const PLUS_SIGN: u8 = 0x2B;

/// `-`
pub const HYPHEN_MINUS: u8 = 0x2D;

/// `n`
pub const N: u8 = 0x6E;

/// A sign is not allowed.
pub const DISALLOW_SIGN: bool = true;

/// A sign is allowed.
pub const ALLOW_SIGN: bool = false;

/// Whitespace or a comment.
pub open spec fn skippable(t: TokenType) -> bool {
    t == TokenType::WhiteSpace || t == TokenType::Comment
}

/// The first index at or after `k` whose token is not whitespace or a comment.
pub open spec fn non_sc_index(ts: Seq<Token>, k: int) -> int
    decreases ts.len() - k,
{
    if 0 <= k < ts.len() && skippable(kind_at(ts, k)) {
        non_sc_index(ts, k + 1)
    } else {
        k
    }
}

/// Skipping from `offset` when the token looked at has type `t`: no move when it
/// is not whitespace or a comment, otherwise on to the first index after `offset`
/// that holds neither.
pub open spec fn skip_sc_from(ts: Seq<Token>, t: TokenType, offset: int) -> int {
    if skippable(t) {
        non_sc_index(ts, offset + 1)
    } else {
        offset
    }
}

/// The last index that an `An+B` value can look at: the second token, after the
/// first one, that is neither whitespace nor a comment, counting from index 2 for
/// the first of them.
pub open spec fn an_plus_b_reach(ts: Seq<Token>) -> int {
    non_sc_index(ts, non_sc_index(ts, 2) + 1)
}

/// All bytes from `start` on are digits.
pub open spec fn digits_from(b: Seq<u8>, start: int) -> bool {
    forall|i: int| start <= i < b.len() ==> digit_byte(#[trigger] b[i])
}

/// The byte at `i` is a sign.
pub open spec fn signed_at(b: Seq<u8>, i: int) -> bool {
    b[i] == PLUS_SIGN || b[i] == HYPHEN_MINUS
}

/// Checks that the text from `value_offset` is an integer (with a sign unless
/// `disallow_sign`); gives `offset + 1` when it is, 0 otherwise.
pub open spec fn integer_check(b: Seq<u8>, value_offset: int, disallow_sign: bool, offset: int) -> int {
    if b.len() == 0 {
        0
    } else {
        let signed = signed_at(b, value_offset);
        if signed && disallow_sign {
            0
        } else {
            let start = if signed { value_offset + 1 } else { value_offset };
            if digits_from(b, start) {
                offset + 1
            } else {
                0
            }
        }
    }
}

/// The `B` part after `An`: optional whitespace, then a signed integer, or a sign
/// and an unsigned integer; `offset0` when neither a number nor a sign follows.
pub open spec fn b_part(ts: Seq<Token>, t: TokenType, offset0: int) -> int {
    let offset = skip_sc_from(ts, t, offset0);
    if kind_at(ts, offset) != TokenType::Number {
        if delim_is(ts, offset, PLUS_SIGN) || delim_is(ts, offset, HYPHEN_MINUS) {
            let offset2 = skip_sc_from(ts, kind_at(ts, offset + 1), offset);
            if kind_at(ts, offset2) != TokenType::Number {
                0
            } else {
                integer_check(bytes_at(ts, offset2), 0, true, offset2)
            }
        } else {
            offset0
        }
    } else {
        let code = bytes_at(ts, offset)[0];
        if code != PLUS_SIGN && code != HYPHEN_MINUS {
            0
        } else {
            integer_check(bytes_at(ts, offset), 1, false, offset)
        }
    }
}

/// A dash and the integer after it, possibly in a later token.
pub open spec fn dash_then_integer(ts: Seq<Token>) -> int {
    let offset = skip_sc_from(ts, kind_at(ts, 1), 0);
    integer_check(bytes_at(ts, offset), 0, true, offset)
}

/// The end of the digits of `b` from `i` on.
pub open spec fn digits_end(b: Seq<u8>, i: int) -> int
    decreases b.len() - i,
{
    if 0 <= i < b.len() && digit_byte(b[i]) {
        digits_end(b, i + 1)
    } else {
        i
    }
}

/// The `n`-forms after the letter: `n` alone, `n-` then an integer, or `n-B` in
/// one token; `i` is the index of the `n` in `b`.
pub open spec fn n_forms(ts: Seq<Token>, b: Seq<u8>, i: int) -> int {
    if b.len() == i + 1 {
        b_part(ts, kind_at(ts, 1), 1)
    } else if b.len() == i + 2 && b[i + 1] == HYPHEN_MINUS {
        dash_then_integer(ts)
    } else if b[i + 1] == HYPHEN_MINUS {
        integer_check(b, i + 2, true, 0)
    } else {
        0
    }
}

/// How many tokens, from the first, the `An+B` value takes; 0 when the tokens do
/// not start with one.  `token` is the first token and `ts[k]` the token `k`
/// places on (`ts[0]` standing for the first token itself).
pub open spec fn an_plus_b_length(token: Token, ts: Seq<Token>) -> int {
    let b = value_bytes(token);
    let ty = token.token_type;
    if ty == TokenType::Number {
        integer_check(b, 0, ALLOW_SIGN, 0)
    } else if ty == TokenType::Ident && b[0] == HYPHEN_MINUS {
        if !byte_matches(b, 1, N) {
            0
        } else {
            n_forms(ts, b, 1)
        }
    } else if ty == TokenType::Ident || ((ty == TokenType::Delim && b[0] == PLUS_SIGN) && kind_at(ts, 1)
        == TokenType::Ident) {
        let b2 = if ty != TokenType::Ident { bytes_at(ts, 1) } else { b };
        if !byte_matches(b2, 0, N) {
            0
        } else {
            n_forms(ts, b2, 0)
        }
    } else if ty == TokenType::Dimension {
        let i0: int = if b[0] == PLUS_SIGN || b[0] == HYPHEN_MINUS { 1 } else { 0 };
        let i = digits_end(b, i0);
        if i == 0 || !byte_matches(b, i, N) {
            0
        } else {
            n_forms(ts, b, i)
        }
    } else {
        0
    }
}

fn is_delim(token: &Token, code: u8) -> (r: bool)
    requires
        well_formed_token(*token),
    ensures
        r == (token.token_type == TokenType::Delim && value_bytes(*token)[0] == code),
{
    token.token_type == TokenType::Delim && value_bytes_of(token)[0] == code
}

fn skip_sc(token_type: TokenType, offset: usize, tokens: &[Token]) -> (r: usize)
    requires
        offset < usize::MAX,
        tokens@.len() < usize::MAX,
    ensures
        r == skip_sc_from(tokens@, token_type, offset as int),
{
    if token_type != TokenType::WhiteSpace && token_type != TokenType::Comment {
        return offset;
    }
    let start = offset;
    let mut offset = offset + 1;
    while offset < tokens.len() && (tokens[offset].token_type == TokenType::WhiteSpace
        || tokens[offset].token_type == TokenType::Comment)
        invariant
            skippable(token_type),
            non_sc_index(tokens@, offset as int) == skip_sc_from(tokens@, token_type, start as int),
        decreases tokens.len() - offset,
    {
        offset += 1;
    }
    offset
}


fn check_integer(b: &[u8], value_offset: usize, disallow_sign: bool, offset: usize) -> (r: usize)
    requires
        b@.len() > 0 ==> value_offset < b@.len(),
        offset < usize::MAX,
    ensures
        r == integer_check(b@, value_offset as int, disallow_sign, offset as int),
{
    if b.len() == 0 {
        return 0;
    }
    let ghost vo0 = value_offset as int;
    let mut pos = value_offset;
    if b[pos] == PLUS_SIGN || b[pos] == HYPHEN_MINUS {
        if disallow_sign {
            return 0;
        }
        pos += 1;
    }
    let start = pos;
    assert(start == (if signed_at(b@, vo0) { vo0 + 1 } else { vo0 }));
    while pos < b.len()
        invariant
            start <= pos,
            start == (if signed_at(b@, vo0) { vo0 + 1 } else { vo0 }),
            !(signed_at(b@, vo0) && disallow_sign),
            b@.len() > 0,
            vo0 == value_offset,
            forall|i: int| start <= i < pos ==> digit_byte(#[trigger] b@[i]),
        decreases b.len() - pos,
    {
        if !is_digit_byte(b[pos]) {
            assert(!digit_byte(b@[pos as int]));
            return 0;
        }
        pos += 1;
    }
    offset + 1
}

fn consume_b(token_type: TokenType, offset_: usize, tokens: &[Token]) -> (r: usize)
    requires
        well_formed_upto(tokens@, non_sc_index(tokens@, non_sc_index(tokens@, offset_ + 1) + 1)),
        offset_ < usize::MAX - 2,
        tokens@.len() < usize::MAX - 2,
    ensures
        r == b_part(tokens@, token_type, offset_ as int),
{
    let mut sign = false;
    let mut offset = skip_sc(token_type, offset_, tokens);
    proof {
        lemma_non_sc_index(tokens@, offset_ + 1);
        lemma_non_sc_index(tokens@, non_sc_index(tokens@, offset_ + 1) + 1);
    }
    if kind_of(tokens, offset) != TokenType::Number {
        if is_delim_at(tokens, offset, PLUS_SIGN) || is_delim_at(tokens, offset, HYPHEN_MINUS) {
            sign = true;
            offset = skip_sc(kind_of(tokens, offset + 1), offset, tokens);
            if kind_of(tokens, offset) != TokenType::Number {
                return 0;
            }
        } else {
            return offset_;
        }
    }
    assert(offset < tokens@.len());
    assert(well_formed_token(tokens@[offset as int]));
    let value = value_bytes_of(&tokens[offset]);
    if !sign {
        let code = value[0];
        if code != PLUS_SIGN && code != HYPHEN_MINUS {
            return 0;
        }
    }
    check_integer(value, if sign { 0 } else { 1 }, sign, offset)
}

pub proof fn lemma_non_sc_index(ts: Seq<Token>, k: int)
    ensures
        k <= non_sc_index(ts, k),
        0 <= k <= ts.len() ==> non_sc_index(ts, k) <= ts.len(),
    decreases ts.len() - k,
{
    if 0 <= k < ts.len() && skippable(kind_at(ts, k)) {
        lemma_non_sc_index(ts, k + 1);
    }
}

fn n_forms_of(token_bytes: &[u8], i: usize, tokens: &[Token]) -> (r: usize)
    requires
        well_formed_upto(tokens@, an_plus_b_reach(tokens@)),
        tokens@.len() < usize::MAX - 2,
        i < token_bytes@.len(),
    ensures
        r == n_forms(tokens@, token_bytes@, i as int),
{
    if token_bytes.len() == i + 1 {
        return consume_b(kind_of(tokens, 1), 1, tokens);
    }
    if token_bytes.len() == i + 2 && token_bytes[i + 1] == HYPHEN_MINUS {
        let offset = skip_sc(kind_of(tokens, 1), 0, tokens);
        proof {
            lemma_non_sc_index(tokens@, 1);
            lemma_non_sc_index(tokens@, 2);
            lemma_non_sc_index(tokens@, non_sc_index(tokens@, 2) + 1);
        }
        if offset < tokens.len() {
            assert(well_formed_token(tokens@[offset as int]));
            return check_integer(value_bytes_of(&tokens[offset]), 0, DISALLOW_SIGN, offset);
        }
        return 0;
    }
    if token_bytes[i + 1] == HYPHEN_MINUS {
        return check_integer(token_bytes, i + 2, DISALLOW_SIGN, 0);
    }
    0
}

/// How many tokens the `An+B` value at the start of the token sequence takes, or
/// 0 when there is none.  `token` is the first token; `tokens[k]` is the token `k`
/// places on, with `tokens[0]` standing for the first token.  The tokens it can
/// look at (up to `an_plus_b_reach`) must be well formed.
pub fn an_plus_b(token: Token, tokens: &[Token]) -> (r: usize)
    requires
        well_formed_token(token),
        well_formed_upto(tokens@, an_plus_b_reach(tokens@)),
        tokens@.len() < usize::MAX - 2,
    ensures
        r == an_plus_b_length(token, tokens@),
{
    let offset: usize = 0;
    let b = value_bytes_of(&token);
    proof {
        lemma_non_sc_index(tokens@, 2);
        lemma_non_sc_index(tokens@, non_sc_index(tokens@, 2) + 1);
    }
    if token.token_type == TokenType::Number {
        return check_integer(b, 0, ALLOW_SIGN, offset);
    }
    if token.token_type == TokenType::Ident && b[0] == HYPHEN_MINUS {
        if !byte_is(b, 1, N) {
            return 0;
        }
        return n_forms_of(b, 1, tokens);
    }
    if token.token_type == TokenType::Ident || (is_delim(&token, PLUS_SIGN) && kind_of(tokens, offset + 1)
        == TokenType::Ident) {
        let b2 = if token.token_type != TokenType::Ident {
            assert(well_formed_token(tokens@[1]));
            value_bytes_of(&tokens[1])
        } else {
            b
        };
        if !byte_is(b2, 0, N) {
            return 0;
        }
        return n_forms_of(b2, 0, tokens);
    }
    if token.token_type == TokenType::Dimension {
        let mut i: usize = if b[0] == PLUS_SIGN || b[0] == HYPHEN_MINUS {
            1
        } else {
            0
        };
        let ghost i0 = i as int;
        while i < b.len() && is_digit_byte(b[i])
            invariant
                i0 <= i,
                digits_end(b@, i as int) == digits_end(b@, i0),
            decreases b.len() - i,
        {
            i += 1;
        }
        if i == 0 || !byte_is(b, i, N) {
            return 0;
        }
        return n_forms_of(b, i, tokens);
    }
    0
}

/// Every byte is an ASCII digit.
pub open spec fn all_digits(d: Seq<u8>) -> bool {
    forall|i: int| 0 <= i < d.len() ==> 0x30 <= #[trigger] d[i] <= 0x39
}

proof fn lemma_digits_end_run(b: Seq<u8>, k: int, end: int)
    requires
        0 <= k <= end < b.len(),
        forall|i: int| k <= i < end ==> 0x30 <= #[trigger] b[i] <= 0x39,
        !(0x30 <= b[end] <= 0x39),
    ensures
        digits_end(b, k) == end,
    decreases end - k,
{
    if k < end {
        assert(0x30 <= b[k] <= 0x39);
        lemma_digits_end_run(b, k + 1, end);
    }
}

/// A dimension `An` (digits and `n`, with or without a leading `+` or `-`)
/// followed by a number `B` that carries its sign is one `An+B` value of two
/// tokens: a signed coefficient such as `-2n` is taken just as `2n` is.
pub proof fn signed_or_unsigned_coefficient_then_signed_b(
    token: Token,
    ts: Seq<Token>,
    prefix: Seq<u8>,
    digits: Seq<u8>,
    b_sign: u8,
    b_digits: Seq<u8>,
)
    requires
        token.token_type == TokenType::Dimension,
        prefix.len() == 0 || prefix == seq![PLUS_SIGN] || prefix == seq![HYPHEN_MINUS],
        digits.len() > 0,
        all_digits(digits),
        value_bytes(token) == prefix + digits + seq![N],
        ts.len() >= 2,
        ts[1].token_type == TokenType::Number,
        b_sign == PLUS_SIGN || b_sign == HYPHEN_MINUS,
        b_digits.len() > 0,
        all_digits(b_digits),
        value_bytes(ts[1]) == seq![b_sign] + b_digits,
    ensures
        an_plus_b_length(token, ts) == 2,
{
    let b = value_bytes(token);
    let i0: int = prefix.len() as int;
    let end = i0 + digits.len();
    assert(b[0] == (if prefix.len() == 0 { digits[0] } else { prefix[0] }));
    assert(all_digits(digits) ==> 0x30 <= digits[0] <= 0x39);
    assert forall|i: int| i0 <= i < end implies 0x30 <= #[trigger] b[i] <= 0x39 by {
        assert(b[i] == digits[i - i0]);
    }
    assert(b[end] == N);
    lemma_digits_end_run(b, i0, end);
    assert(byte_matches(b, end, N));
    assert(b.len() == end + 1);
    let b2 = value_bytes(ts[1]);
    assert(bytes_at(ts, 1) == b2);
    assert(b2[0] == b_sign);
    assert(b2[1] == b_digits[0]);
    assert(digits_from(b2, 1)) by {
        assert forall|i: int| 1 <= i < b2.len() implies digit_byte(#[trigger] b2[i]) by {
            assert(b2[i] == b_digits[i - 1]);
        }
    }
    assert(integer_check(b2, 1, false, 1) == 2);
    assert(b_part(ts, TokenType::Number, 1) == 2);
}

} // verus!
