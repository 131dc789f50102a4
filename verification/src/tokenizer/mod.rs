//! Tokenization of CSS source text (CSS Syntax Module Level 3, § 4).
pub mod balance;
pub mod char_code_definitions;
pub mod types;
pub mod offset_to_location;
pub mod token_stream;
pub mod utils;

use vstd::prelude::*;
use vstd::utf8::encode_utf8;
use crate::tokenizer::char_code_definitions::{
    bom, category, char_code_category, identifier_start, is_bom, is_identifier_start, is_name,
    is_newline, is_number_start, is_valid_escape, name_code, newline, number_start,
    valid_escape, NON_PRINTABLE_CATEGORY, WHITE_SPACE_CATEGORY,
};
use crate::tokenizer::types::{
    BAD_STRING, BAD_URL, CDC, COMMA, DELIM, DIMENSION, FUNCTION, HASH, IDENT, LEFT_PARENTHESIS,
    NUMBER, PERCENTAGE, RIGHT_PARENTHESIS, STRING, URL, WHITE_SPACE,
};
use crate::tokenizer::utils::{
    bad_url_end, char_code_in, code_at, consume_bad_url_remnants_in, consume_escaped_in,
    consume_name_in, consume_number_in, escaped_end, find_white_space_end_in,
    get_newline_length_in, lemma_bad_url_end, lemma_escaped_end_bounds, lemma_hex_run_end,
    lemma_name_end, lemma_number_end, lemma_white_space_end, matches_range_in, name_end,
    newline_length, number_end, range_matches, to_chars, white_space_end, decimal_end,
    lemma_decimal_end, hex_run_end,
};

verus! {

/// The scan of a string token from index `i`, with `o` the offset reached so far
/// and `ending` the quote that closes it.
pub open spec fn string_scan(s: Seq<char>, i: int, o: int, ending: u32) -> (u8, int)
    decreases s.len() - i,
{
    if i < 0 || i >= s.len() {
        (STRING, o)
    } else {
        let code = code_at(s, i);
        let cat = category(code);
        if cat == ending {
            (STRING, i + 1)
        } else if cat == WHITE_SPACE_CATEGORY && newline(code) {
            (BAD_STRING, o + newline_length(s, o, code))
        } else if cat == 0x5C {
            if i == s.len() - 1 {
                (STRING, o)
            } else {
                let next = code_at(s, i + 1);
                if newline(next) {
                    string_scan(s, i + 1, o + newline_length(s, i + 1, next), ending)
                } else if valid_escape(code, next) {
                    string_scan(s, i + 1, escaped_end(s, i) - 1, ending)
                } else {
                    string_scan(s, i + 1, o, ending)
                }
            }
        } else {
            string_scan(s, i + 1, o, ending)
        }
    }
}

/// § 4.3.5: the string token whose opening quote is at `offset`: its type and end.
pub open spec fn string_token(s: Seq<char>, offset: int) -> (u8, int) {
    string_scan(s, offset + 1, offset + 1, code_at(s, offset))
}

/// The scan of a url token from index `i`, with `o` the offset reached so far.
pub open spec fn url_scan(s: Seq<char>, i: int, o: int) -> (u8, int)
    decreases s.len() - i,
{
    if i < 0 || i >= s.len() {
        (URL, o)
    } else {
        let code = code_at(s, i);
        let cat = category(code);
        if cat == 0x29 {
            (URL, i + 1)
        } else if cat == WHITE_SPACE_CATEGORY {
            let w = white_space_end(s, i);
            if code_at(s, w) == 0x29 || w >= s.len() {
                (URL, if w < s.len() { w + 1 } else { w })
            } else {
                (BAD_URL, bad_url_end(s, w))
            }
        } else if cat == 0x22 || cat == 0x27 || cat == 0x28 || cat == NON_PRINTABLE_CATEGORY {
            (BAD_URL, bad_url_end(s, i))
        } else if cat == 0x5C {
            if valid_escape(code, code_at(s, i + 1)) {
                url_scan(s, i + 1, escaped_end(s, i) - 1)
            } else {
                (BAD_URL, bad_url_end(s, i))
            }
        } else {
            url_scan(s, i + 1, o)
        }
    }
}

/// § 4.3.6: the url token whose contents start at `offset` (after `url(`).
pub open spec fn url_token(s: Seq<char>, offset: int) -> (u8, int) {
    let o = white_space_end(s, offset);
    url_scan(s, o, o)
}

/// § 4.3.4: an ident-like token at `offset`: an identifier, a function, or a url.
/// A `url(` whose argument is quoted is a function token of four code points.
pub open spec fn ident_like_token(s: Seq<char>, offset: int) -> (u8, int) {
    let e = name_end(s, offset);
    if range_matches(s, offset, e, seq!['u', 'r', 'l']) && code_at(s, e) == 0x28 {
        let w = white_space_end(s, e + 1);
        if code_at(s, w) == 0x22 || code_at(s, w) == 0x27 {
            (FUNCTION, offset + 4)
        } else {
            (URL, url_token(s, w).1)
        }
    } else if code_at(s, e) == 0x28 {
        (FUNCTION, e + 1)
    } else {
        (IDENT, e)
    }
}

/// § 4.3.3: a numeric token at `offset`: a dimension, a percentage or a number.
pub open spec fn numeric_token(s: Seq<char>, offset: int) -> (u8, int) {
    let e = number_end(s, offset);
    if identifier_start(code_at(s, e), code_at(s, e + 1), code_at(s, e + 2)) {
        (DIMENSION, name_end(s, e))
    } else if code_at(s, e) == 0x25 {
        (PERCENTAGE, e + 1)
    } else {
        (NUMBER, e)
    }
}

/// The token that starts at `offset`: its type and end.
///
/// Whitespace, strings, hashes, parentheses, commas, numbers (after `+`, `-` or
/// `.`), `-->` and ident-like tokens that start with `-` are recognized; every
/// other code point makes a one-code-point delim token.
pub open spec fn next_token(s: Seq<char>, offset: int) -> (u8, int) {
    let code = code_at(s, offset);
    let cat = category(code);
    let c1 = code_at(s, offset + 1);
    let c2 = code_at(s, offset + 2);
    if cat == WHITE_SPACE_CATEGORY {
        (WHITE_SPACE, white_space_end(s, offset + 1))
    } else if cat == 0x22 || cat == 0x27 {
        string_token(s, offset)
    } else if cat == 0x23 {
        if name_code(c1) || valid_escape(c1, c2) {
            (HASH, name_end(s, offset + 1))
        } else {
            (DELIM, offset + 1)
        }
    } else if cat == 0x28 {
        (LEFT_PARENTHESIS, offset + 1)
    } else if cat == 0x29 {
        (RIGHT_PARENTHESIS, offset + 1)
    } else if cat == 0x2B {
        if number_start(code, c1, c2) != 0 {
            numeric_token(s, offset)
        } else {
            (DELIM, offset + 1)
        }
    } else if cat == 0x2C {
        (COMMA, offset + 1)
    } else if cat == 0x2D {
        if number_start(code, c1, c2) != 0 {
            numeric_token(s, offset)
        } else if c1 == 0x2D && c2 == 0x3E {
            (CDC, offset + 3)
        } else if identifier_start(code, c1, c2) {
            ident_like_token(s, offset)
        } else {
            (DELIM, offset + 1)
        }
    } else if cat == 0x2E {
        if number_start(code, c1, c2) != 0 {
            numeric_token(s, offset)
        } else {
            (DELIM, offset + 1)
        }
    } else {
        (DELIM, offset + 1)
    }
}

/// The tokens of `s` from `start` on, as (type, start, end).
pub open spec fn tokens_from(s: Seq<char>, start: int) -> Seq<(u8, int, int)>
    decreases s.len() - start,
{
    if 0 <= start < s.len() {
        let t = next_token(s, start);
        proof {
            lemma_next_token_bounds(s, start);
        }
        seq![(t.0, start, t.1)] + tokens_from(s, t.1)
    } else {
        seq![]
    }
}

/// Where tokenization starts: after a leading byte order mark, if any.
pub open spec fn first_offset(s: Seq<char>) -> int {
    if bom(code_at(s, 0)) {
        1
    } else {
        0
    }
}

/// The tokens of `s`, as (type, start, end).
pub open spec fn token_list(s: Seq<char>) -> Seq<(u8, int, int)> {
    tokens_from(s, first_offset(s))
}

/// One delim token of width 1 at each offset from `from` up to `to`.
pub open spec fn past_end_delims(from: int, to: int) -> Seq<(u8, int, int)>
    decreases to - from,
{
    if from < to {
        seq![(DELIM, from, from + 1)] + past_end_delims(from + 1, to)
    } else {
        seq![]
    }
}

/// What `tokenize` gives for `s`: the tokens of its code points, then, where the
/// text is longer in bytes than in code points, one delim token for each offset
/// from its code point count up to its byte count.
pub open spec fn tokenized(s: Seq<char>) -> Seq<(u8, int, int)> {
    token_list(s) + past_end_delims(s.len() as int, encode_utf8(s).len() as int)
}

pub proof fn lemma_past_end_delims(from: int, to: int)
    ensures
        past_end_delims(from, to).len() == (if from < to { to - from } else { 0 }),
        forall|k: int| 0 <= k < past_end_delims(from, to).len() ==>
            #[trigger] past_end_delims(from, to)[k] == (DELIM, from + k, from + k + 1),
    decreases to - from,
{
    if from < to {
        lemma_past_end_delims(from + 1, to);
        let rest = past_end_delims(from + 1, to);
        assert forall|k: int| 0 <= k < past_end_delims(from, to).len() implies
            #[trigger] past_end_delims(from, to)[k] == (DELIM, from + k, from + k + 1) by {
            if k > 0 {
                assert(past_end_delims(from, to)[k] == rest[k - 1]);
            }
        }
    }
}

/// The tokens that `tokenize` hands back, read with integer offsets.
pub open spec fn spans(v: Seq<(u8, usize, usize)>) -> Seq<(u8, int, int)> {
    v.map_values(|t: (u8, usize, usize)| (t.0, t.1 as int, t.2 as int))
}

/// What a string scan keeps: the offset reached is inside the text, and when it
/// runs ahead of the scan, the code points in between hold no reverse solidus.
pub open spec fn string_scan_inv(s: Seq<char>, i: int, o: int) -> bool {
    &&& o <= s.len()
    &&& (o <= i || (o < s.len() && forall|k: int| i <= k < o ==> #[trigger] code_at(s, k) != 0x5C))
}

/// The code points that a valid escape takes after its escaped code point hold no
/// reverse solidus.
pub proof fn lemma_escape_region(s: Seq<char>, i: int)
    requires
        0 <= i,
        i + 1 < s.len(),
        valid_escape(code_at(s, i), code_at(s, i + 1)),
    ensures
        forall|k: int| i + 1 <= k < escaped_end(s, i) - 1 ==> #[trigger] code_at(s, k) != 0x5C,
{
    let o = i + 2;
    if hex_digit_at(s, o - 1) {
        let max = if s.len() < o + 5 { s.len() as int } else { o + 5 };
        lemma_hex_run_end(s, o, max);
    }
}

pub open spec fn hex_digit_at(s: Seq<char>, i: int) -> bool {
    crate::tokenizer::char_code_definitions::hex_digit(code_at(s, i))
}

pub proof fn lemma_string_scan(s: Seq<char>, i: int, o: int, ending: u32, lo: int)
    requires
        0 <= i,
        lo < i,
        lo < o,
        string_scan_inv(s, i, o),
    ensures
        lo < string_scan(s, i, o, ending).1 <= s.len(),
    decreases s.len() - i,
{
    if i < s.len() {
        let code = code_at(s, i);
        let cat = category(code);
        if cat == ending {
        } else if cat == WHITE_SPACE_CATEGORY && newline(code) {
        } else if cat == 0x5C {
            if i == s.len() - 1 {
            } else {
                let next = code_at(s, i + 1);
                assert(o <= i) by {
                    if o > i {
                        assert(code_at(s, i) != 0x5C);
                    }
                }
                if newline(next) {
                    lemma_string_scan(s, i + 1, o + newline_length(s, i + 1, next), ending, lo);
                } else if valid_escape(code, next) {
                    lemma_escaped_end_bounds(s, i);
                    lemma_escape_region(s, i);
                    lemma_string_scan(s, i + 1, escaped_end(s, i) - 1, ending, lo);
                } else {
                    lemma_string_scan(s, i + 1, o, ending, lo);
                }
            }
        } else {
            lemma_string_scan(s, i + 1, o, ending, lo);
        }
    }
}

pub proof fn lemma_url_scan(s: Seq<char>, i: int, o: int, lo: int)
    requires
        0 <= i,
        lo < i,
        lo < o <= s.len(),
    ensures
        lo < url_scan(s, i, o).1 <= s.len(),
    decreases s.len() - i,
{
    if i < s.len() {
        let code = code_at(s, i);
        let cat = category(code);
        if cat == 0x29 {
        } else if cat == WHITE_SPACE_CATEGORY {
            lemma_white_space_end(s, i);
            let w = white_space_end(s, i);
            lemma_bad_url_end(s, w);
        } else if cat == 0x22 || cat == 0x27 || cat == 0x28 || cat == NON_PRINTABLE_CATEGORY {
            lemma_bad_url_end(s, i);
        } else if cat == 0x5C {
            if valid_escape(code, code_at(s, i + 1)) {
                lemma_escaped_end_bounds(s, i);
                lemma_url_scan(s, i + 1, escaped_end(s, i) - 1, lo);
            } else {
                lemma_bad_url_end(s, i);
            }
        } else {
            lemma_url_scan(s, i + 1, o, lo);
        }
    }
}

/// A number whose start is recognized takes at least one code point.
pub proof fn lemma_number_progress(s: Seq<char>, offset: int)
    requires
        0 <= offset < s.len(),
        number_start(code_at(s, offset), code_at(s, offset + 1), code_at(s, offset + 2)) != 0,
    ensures
        offset < number_end(s, offset) <= s.len(),
{
    lemma_number_end(s, offset);
    let c0 = code_at(s, offset);
    let o1 = if c0 == 0x2B || c0 == 0x2D { offset + 1 } else { offset };
    lemma_decimal_end(s, o1 + 1);
    let c1 = code_at(s, o1);
    let o2 = if crate::tokenizer::char_code_definitions::digit(c1) { decimal_end(s, o1 + 1) } else { o1 };
    lemma_decimal_end(s, o2 + 2);
    let c2 = code_at(s, o2);
    let o3 = if c2 == 0x2E && crate::tokenizer::char_code_definitions::digit(code_at(s, o2 + 1)) { decimal_end(s, o2 + 2) } else { o2 };
    let c4 = code_at(s, o3 + 1);
    let sign: int = if c4 == 0x2D || c4 == 0x2B { 1 } else { 0 };
    lemma_decimal_end(s, o3 + 1 + sign + 1);
}

/// Every token takes at least one code point and ends inside the text.
pub proof fn lemma_next_token_bounds(s: Seq<char>, offset: int)
    requires
        0 <= offset < s.len(),
    ensures
        offset < next_token(s, offset).1 <= s.len(),
{
    let code = code_at(s, offset);
    let cat = category(code);
    let c1 = code_at(s, offset + 1);
    let c2 = code_at(s, offset + 2);
    lemma_white_space_end(s, offset + 1);
    lemma_name_end(s, offset + 1);
    if cat == 0x22 || cat == 0x27 {
        lemma_string_scan(s, offset + 1, offset + 1, code, offset);
    }
    if (cat == 0x2B || cat == 0x2D || cat == 0x2E) && number_start(code, c1, c2) != 0 {
        lemma_number_progress(s, offset);
        let e = number_end(s, offset);
        lemma_name_end(s, e);
    }
    if cat == 0x2D && number_start(code, c1, c2) == 0 && !(c1 == 0x2D && c2 == 0x3E)
        && identifier_start(code, c1, c2) {
        lemma_ident_like_bounds(s, offset);
    }
}

pub proof fn lemma_ident_like_bounds(s: Seq<char>, offset: int)
    requires
        0 <= offset < s.len(),
        name_code(code_at(s, offset)),
    ensures
        offset < ident_like_token(s, offset).1 <= s.len(),
{
    lemma_name_end(s, offset + 1);
    let e = name_end(s, offset);
    assert(e == name_end(s, offset + 1));
    if range_matches(s, offset, e, seq!['u', 'r', 'l']) && code_at(s, e) == 0x28 {
        lemma_white_space_end(s, e + 1);
        let w = white_space_end(s, e + 1);
        lemma_white_space_end(s, w);
        let o = white_space_end(s, w);
        lemma_url_scan(s, o, o, offset);
    }
}


/// The tokens from `start` on: at most one per code point, in order, each
/// non-empty, each starting where the previous one ended, the first at `start`
/// and the last ending at the end of the text; every type is a token type other
/// than the end of input.
pub proof fn lemma_tokens_from(s: Seq<char>, start: int)
    requires
        0 <= start <= s.len(),
    ensures
        tokens_from(s, start).len() <= s.len() - start,
        tokens_from(s, start).len() == 0 <==> start == s.len(),
        tokens_from(s, start).len() > 0 ==> tokens_from(s, start)[0].1 == start
            && tokens_from(s, start)[tokens_from(s, start).len() - 1].2 == s.len(),
        forall|k: int| 0 <= k < tokens_from(s, start).len() ==>
            start <= (#[trigger] tokens_from(s, start)[k]).1 < tokens_from(s, start)[k].2 <= s.len()
            && 1 <= tokens_from(s, start)[k].0 <= 25,
        forall|k: int| 0 <= k < tokens_from(s, start).len() - 1 ==>
            (#[trigger] tokens_from(s, start)[k]).2 == tokens_from(s, start)[k + 1].1,
    decreases s.len() - start,
{
    if start < s.len() {
        lemma_next_token_bounds(s, start);
        lemma_next_token_type(s, start);
        let t = next_token(s, start);
        lemma_tokens_from(s, t.1);
        let rest = tokens_from(s, t.1);
        let all = tokens_from(s, start);
        assert(all =~= seq![(t.0, start, t.1)] + rest);
        assert forall|k: int| 0 <= k < all.len() implies
            start <= (#[trigger] all[k]).1 < all[k].2 <= s.len() && 1 <= all[k].0 <= 25 by {
            if k > 0 {
                assert(all[k] == rest[k - 1]);
            }
        }
        assert forall|k: int| 0 <= k < all.len() - 1 implies (#[trigger] all[k]).2 == all[k + 1].1 by {
            if k > 0 {
                assert(all[k] == rest[k - 1]);
                assert(all[k + 1] == rest[k]);
            } else {
                assert(all[1] == rest[0]);
            }
        }
        if rest.len() > 0 {
            assert(all[all.len() - 1] == rest[rest.len() - 1]);
        }
    }
}

pub proof fn lemma_next_token_type(s: Seq<char>, offset: int)
    ensures
        1 <= next_token(s, offset).0 <= 25,
{
    lemma_string_scan_type(s, offset + 1, offset + 1, code_at(s, offset));
}

pub proof fn lemma_string_scan_type(s: Seq<char>, i: int, o: int, ending: u32)
    ensures
        string_scan(s, i, o, ending).0 == STRING || string_scan(s, i, o, ending).0 == BAD_STRING,
    decreases s.len() - i,
{
    if 0 <= i < s.len() {
        let code = code_at(s, i);
        let next = code_at(s, i + 1);
        lemma_string_scan_type(s, i + 1, o + newline_length(s, i + 1, next), ending);
        lemma_string_scan_type(s, i + 1, escaped_end(s, i) - 1, ending);
        lemma_string_scan_type(s, i + 1, o, ending);
    }
}

/// The tokens of a text cover it from the first offset (after a byte order mark)
/// to its end: they come in order, none is empty, each starts where the previous
/// one ends, and there are no more tokens than code points.
pub proof fn tokens_partition_source(s: Seq<char>)
    ensures
        token_list(s).len() <= s.len(),
        token_list(s).len() == 0 <==> s.len() <= first_offset(s),
        token_list(s).len() > 0 ==> token_list(s)[0].1 == first_offset(s)
            && token_list(s)[token_list(s).len() - 1].2 == s.len(),
        forall|k: int| 0 <= k < token_list(s).len() ==>
            (#[trigger] token_list(s)[k]).1 < token_list(s)[k].2,
        forall|k: int| 0 <= k < token_list(s).len() - 1 ==>
            (#[trigger] token_list(s)[k]).2 == token_list(s)[k + 1].1,
{
    if first_offset(s) <= s.len() {
        lemma_tokens_from(s, first_offset(s));
    } else {
        assert(token_list(s) =~= seq![]);
    }
}

/// A code point that may stand in a name after `#`: an ASCII letter, a digit, `-`,
/// `_`, or any non-ASCII code point.
pub open spec fn hash_name_code(c: char) -> bool {
    let u = c as u32;
    (0x61 <= u <= 0x7A) || (0x41 <= u <= 0x5A) || (0x30 <= u <= 0x39) || u == 0x2D || u == 0x5F || u >= 0x80
}

proof fn lemma_name_runs_to_end(s: Seq<char>, k: int)
    requires
        1 <= k <= s.len(),
        forall|i: int| 1 <= i < s.len() ==> hash_name_code(#[trigger] s[i]),
    ensures
        name_end(s, k) == s.len(),
    decreases s.len() - k,
{
    if k < s.len() {
        assert(hash_name_code(s[k]));
        lemma_name_runs_to_end(s, k + 1);
    }
}

/// `#` followed by a name (letters, digits, `-`, `_`, non-ASCII code points) is one
/// hash token that runs to the end of the name, whatever the name starts with.
pub proof fn hash_takes_its_name(s: Seq<char>)
    requires
        s.len() >= 2,
        s[0] as u32 == 0x23,
        forall|i: int| 1 <= i < s.len() ==> hash_name_code(#[trigger] s[i]),
    ensures
        token_list(s) == seq![(HASH, 0int, s.len() as int)],
        tokenized(s)[0] == (HASH, 0int, s.len() as int),
{
    assert(code_at(s, 0) == 0x23);
    assert(first_offset(s) == 0);
    assert(hash_name_code(s[1]));
    lemma_name_runs_to_end(s, 1);
    assert(next_token(s, 0) == (HASH, s.len() as int));
    assert(tokens_from(s, s.len() as int) =~= seq![]);
    assert(tokens_from(s, 0) =~= seq![(HASH, 0int, s.len() as int)]);
    assert(tokenized(s)[0] == token_list(s)[0]);
}

/// A text is at least as long in bytes as in code points.
pub proof fn lemma_encode_utf8_len(s: Seq<char>)
    ensures
        encode_utf8(s).len() >= s.len(),
    decreases s.len(),
{
    if s.len() > 0 {
        lemma_encode_utf8_len(s.drop_first());
    }
}

/// What `tokenize` gives covers the text from the first offset (after a byte order
/// mark) on, in order: no token is empty, each is of a token type other than the
/// end of input, each starts where the previous one ends, and the last ends at the
/// text's length in bytes.
pub proof fn tokenize_covers_source(s: Seq<char>)
    ensures
        tokenized(s).len() > 0 ==> tokenized(s)[0].1 == first_offset(s)
            && tokenized(s)[tokenized(s).len() - 1].2 == encode_utf8(s).len(),
        tokenized(s).len() == 0 ==> encode_utf8(s).len() == s.len() && s.len() <= first_offset(s),
        forall|k: int| 0 <= k < tokenized(s).len() ==> (#[trigger] tokenized(s)[k]).1 < tokenized(s)[k].2
            && 1 <= tokenized(s)[k].0 <= 25,
        forall|k: int| 0 <= k < tokenized(s).len() - 1 ==> (#[trigger] tokenized(s)[k]).2 == tokenized(s)[k + 1].1,
{
    tokens_partition_source(s);
    lemma_encode_utf8_len(s);
    let a = token_list(s);
    let n = s.len() as int;
    let m = encode_utf8(s).len() as int;
    let b = past_end_delims(n, m);
    lemma_past_end_delims(n, m);
    let t = tokenized(s);
    assert(first_offset(s) <= n) by {
        if n == 0 {
            assert(code_at(s, 0) == 0);
        }
    }
    lemma_tokens_from(s, first_offset(s));
    assert forall|k: int| 0 <= k < t.len() implies (#[trigger] t[k]).1 < t[k].2 && 1 <= t[k].0 <= 25 by {
        if k < a.len() {
            assert(t[k] == a[k]);
        } else {
            assert(t[k] == b[k - a.len()]);
        }
    }
    assert forall|k: int| 0 <= k < t.len() - 1 implies (#[trigger] t[k]).2 == t[k + 1].1 by {
        if k + 1 < a.len() {
            assert(t[k] == a[k] && t[k + 1] == a[k + 1]);
        } else if k + 1 == a.len() {
            assert(t[k] == a[k] && t[k + 1] == b[0]);
        } else {
            assert(t[k] == b[k - a.len()] && t[k + 1] == b[k + 1 - a.len()]);
        }
    }
    if t.len() > 0 {
        if a.len() > 0 {
            assert(t[0] == a[0]);
        } else {
            assert(t[0] == b[0]);
        }
        if b.len() > 0 {
            assert(t[t.len() - 1] == b[b.len() - 1]);
        } else {
            assert(t[t.len() - 1] == a[a.len() - 1]);
        }
    }
}

fn consume_numeric_token(s: &[char], offset: usize) -> (r: (u8, usize))
    requires
        s@.len() <= isize::MAX,
        offset < s@.len(),
    ensures
        (r.0, r.1 as int) == numeric_token(s@, offset as int),
{
    let mut off = consume_number_in(s, offset);
    proof {
        lemma_number_end(s@, offset as int);
    }
    if is_identifier_start(char_code_in(s, off), char_code_in(s, off + 1), char_code_in(s, off + 2)) {
        off = consume_name_in(s, off);
        return (DIMENSION, off);
    }
    if char_code_in(s, off) == 0x25 {
        off += 1;
        return (PERCENTAGE, off);
    }
    (NUMBER, off)
}

fn consume_string_token(s: &[char], offset: usize) -> (r: (u8, usize))
    requires
        s@.len() <= isize::MAX,
        offset < s@.len(),
    ensures
        (r.0, r.1 as int) == string_token(s@, offset as int),
{
    let ending_code_point = char_code_in(s, offset);
    let mut off = offset + 1;
    let mut i = offset + 1;
    while i < s.len()
        invariant
            s@.len() <= isize::MAX,
            offset + 1 <= i <= s@.len(),
            string_scan_inv(s@, i as int, off as int),
            string_scan(s@, i as int, off as int, ending_code_point) == string_token(s@, offset as int),
        decreases s.len() - i,
    {
        let code = s[i] as u32;
        let cat = char_code_category(code);
        if cat == ending_code_point {
            return (STRING, i + 1);
        }
        if cat == WHITE_SPACE_CATEGORY && is_newline(code) {
            off = off + get_newline_length_in(s, off, code);
            return (BAD_STRING, off);
        }
        if cat == 0x5C {
            if i == s.len() - 1 {
                return (STRING, off);
            }
            let next_code = s[i + 1] as u32;
            assert(off <= i) by {
                if off > i {
                    assert(code_at(s@, i as int) != 0x5C);
                }
            }
            if is_newline(next_code) {
                off = off + get_newline_length_in(s, i + 1, next_code);
            } else if is_valid_escape(code, next_code) {
                proof {
                    lemma_escaped_end_bounds(s@, i as int);
                    lemma_escape_region(s@, i as int);
                }
                off = consume_escaped_in(s, i) - 1;
            }
        }
        i += 1;
    }
    (STRING, off)
}

fn consume_url_token(s: &[char], offset: usize) -> (r: (u8, usize))
    requires
        s@.len() <= isize::MAX,
        offset <= s@.len(),
    ensures
        (r.0, r.1 as int) == url_token(s@, offset as int),
{
    let mut off = find_white_space_end_in(s, offset);
    proof {
        lemma_white_space_end(s@, offset as int);
    }
    let mut i = off;
    while i < s.len()
        invariant
            s@.len() <= isize::MAX,
            off <= s@.len(),
            i <= s@.len(),
            url_scan(s@, i as int, off as int) == url_token(s@, offset as int),
        decreases s.len() - i,
    {
        let code = s[i] as u32;
        let cat = char_code_category(code);
        if cat == 0x29 {
            return (URL, i + 1);
        }
        if cat == WHITE_SPACE_CATEGORY {
            off = find_white_space_end_in(s, i);
            proof {
                lemma_white_space_end(s@, i as int);
            }
            if char_code_in(s, off) == 0x29 || off >= s.len() {
                if off < s.len() {
                    off += 1;
                }
                return (URL, off);
            }
            off = consume_bad_url_remnants_in(s, off);
            return (BAD_URL, off);
        }
        if cat == 0x22 || cat == 0x27 || cat == 0x28 || cat == NON_PRINTABLE_CATEGORY {
            off = consume_bad_url_remnants_in(s, i);
            return (BAD_URL, off);
        }
        if cat == 0x5C {
            if is_valid_escape(code, char_code_in(s, i + 1)) {
                proof {
                    lemma_escaped_end_bounds(s@, i as int);
                }
                off = consume_escaped_in(s, i) - 1;
            } else {
                off = consume_bad_url_remnants_in(s, i);
                return (BAD_URL, off);
            }
        }
        i += 1;
    }
    (URL, off)
}

fn consume_ident_like_token(s: &[char], offset: usize) -> (r: (u8, usize))
    requires
        s@.len() <= isize::MAX,
        offset < s@.len(),
        name_code(code_at(s@, offset as int)),
    ensures
        (r.0, r.1 as int) == ident_like_token(s@, offset as int),
{
    let name_start_offset = offset;
    let mut off = consume_name_in(s, offset);
    proof {
        lemma_name_end(s@, offset as int);
    }
    let url = vec!['u', 'r', 'l'];
    assert(url@ == seq!['u', 'r', 'l']);
    if matches_range_in(s, name_start_offset, off, url.as_slice()) && char_code_in(s, off) == 0x28 {
        proof {
            lemma_white_space_end(s@, off + 1);
        }
        off = find_white_space_end_in(s, off + 1);
        let code = char_code_in(s, off);
        if code == 0x22 || code == 0x27 {
            off = name_start_offset + 4;
            return (FUNCTION, off);
        }
        let (_, end) = consume_url_token(s, off);
        return (URL, end);
    }
    if char_code_in(s, off) == 0x28 {
        off += 1;
        return (FUNCTION, off);
    }
    (IDENT, off)
}

/// The token that starts at `offset`: its type and end.
fn consume_token(s: &[char], offset: usize) -> (r: (u8, usize))
    requires
        s@.len() <= isize::MAX,
        offset < s@.len(),
    ensures
        (r.0, r.1 as int) == next_token(s@, offset as int),
{
    let code = s[offset] as u32;
    let c1 = char_code_in(s, offset + 1);
    let c2 = char_code_in(s, offset + 2);
    let cat = char_code_category(code);
    if cat == WHITE_SPACE_CATEGORY {
        (WHITE_SPACE, find_white_space_end_in(s, offset + 1))
    } else if cat == 0x22 || cat == 0x27 {
        consume_string_token(s, offset)
    } else if cat == 0x23 {
        if is_name(c1) || is_valid_escape(c1, c2) {
            (HASH, consume_name_in(s, offset + 1))
        } else {
            (DELIM, offset + 1)
        }
    } else if cat == 0x28 {
        (LEFT_PARENTHESIS, offset + 1)
    } else if cat == 0x29 {
        (RIGHT_PARENTHESIS, offset + 1)
    } else if cat == 0x2B {
        if is_number_start(code, c1, c2) != 0 {
            consume_numeric_token(s, offset)
        } else {
            (DELIM, offset + 1)
        }
    } else if cat == 0x2C {
        (COMMA, offset + 1)
    } else if cat == 0x2D {
        if is_number_start(code, c1, c2) != 0 {
            consume_numeric_token(s, offset)
        } else if c1 == 0x2D && c2 == 0x3E {
            (CDC, offset + 3)
        } else if is_identifier_start(code, c1, c2) {
            consume_ident_like_token(s, offset)
        } else {
            (DELIM, offset + 1)
        }
    } else if cat == 0x2E {
        if is_number_start(code, c1, c2) != 0 {
            consume_numeric_token(s, offset)
        } else {
            (DELIM, offset + 1)
        }
    } else {
        (DELIM, offset + 1)
    }
}

/// Splits `source` into tokens and returns them in order as (type, start, end),
/// with offsets counted in code points; a leading byte order mark is skipped.  The
/// scan runs up to the length of the text in bytes: past its last code point each
/// offset reads as the end of input and makes a delim token of width 1.
pub fn tokenize(source: &str) -> (tokens: Vec<(u8, usize, usize)>)
    requires
        source@.len() <= isize::MAX,
        encode_utf8(source@).len() <= isize::MAX,
    ensures
        spans(tokens@) == tokenized(source@),
{
    let s = to_chars(source);
    let source_length = s.len();
    let mut start: usize = if is_bom(char_code_in(&s, 0)) {
        1
    } else {
        0
    };
    let mut offset = start;
    let mut tokens: Vec<(u8, usize, usize)> = Vec::new();
    proof {
        assert(spans(tokens@) =~= seq![]);
    }
    while offset < source_length
        invariant
            s@ == source@,
            source_length == s@.len(),
            s@.len() <= isize::MAX,
            start == offset,
            first_offset(s@) <= offset <= s@.len(),
            spans(tokens@) + tokens_from(s@, offset as int) == token_list(s@),
        decreases source_length - offset,
    {
        let (token_type, end) = consume_token(s.as_slice(), offset);
        proof {
            lemma_next_token_bounds(s@, offset as int);
        }
        let ghost before = tokens@;
        tokens.push((token_type, start, end));
        proof {
            assert(spans(tokens@) =~= spans(before).push((token_type, start as int, end as int)));
            assert(tokens_from(s@, offset as int) =~= seq![(token_type, offset as int, end as int)]
                + tokens_from(s@, end as int));
            assert(spans(tokens@) + tokens_from(s@, end as int) =~= spans(before) + tokens_from(s@, offset as int));
        }
        offset = end;
        start = offset;
    }
    proof {
        assert(tokens_from(s@, offset as int) =~= seq![]);
        assert(spans(tokens@) + seq![] =~= spans(tokens@));
    }
    let byte_length = source.len();
    assert(byte_length == encode_utf8(source@).len());
    assert(spans(tokens@) == token_list(source@));
    while offset < byte_length
        invariant
            s@ == source@,
            byte_length == encode_utf8(source@).len(),
            source@.len() <= offset,
            spans(tokens@) + past_end_delims(offset as int, byte_length as int) == tokenized(source@),
        decreases byte_length - offset,
    {
        let ghost before = tokens@;
        tokens.push((DELIM, offset, offset + 1));
        proof {
            assert(spans(tokens@) =~= spans(before).push((DELIM, offset as int, offset + 1)));
            assert(past_end_delims(offset as int, byte_length as int) =~= seq![(DELIM, offset as int, offset + 1)]
                + past_end_delims(offset + 1, byte_length as int));
            assert(spans(tokens@) + past_end_delims(offset + 1, byte_length as int) =~= spans(before)
                + past_end_delims(offset as int, byte_length as int));
        }
        offset += 1;
    }
    proof {
        assert(past_end_delims(offset as int, byte_length as int) =~= seq![]);
        assert(spans(tokens@) + seq![] =~= spans(tokens@));
    }
    tokens
}

} // verus!
