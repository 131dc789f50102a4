//! Scanning helpers of CSS Syntax § 4.3 over a source text.
//!
//! Offsets count code points (`char`s) of the source.  A read at or past the
//! end of the source yields the end-of-input code 0.
use vstd::prelude::*;
use crate::tokenizer::char_code_definitions::{
    digit, hex_digit, is_digit, is_hex_digit, is_name, is_uppercase_letter, is_valid_escape,
    is_white_space, name_code, uppercase_letter, valid_escape, white_space,
};

verus! {

/// The code of the code point at `i`, or 0 (end of input) outside the text.
pub open spec fn code_at(s: Seq<char>, i: int) -> u32 {
    if 0 <= i < s.len() {
        s[i] as u32
    } else {
        0
    }
}

/// The code points of a string, one by one.
pub fn to_chars(source: &str) -> (v: Vec<char>)
    ensures
        v@ == source@,
{
    let mut v: Vec<char> = Vec::new();
    for c in it: source.chars()
        invariant
            it.seq() == source@,
            v@ == it.seq().take(it.index()),
    {
        v.push(c);
        proof {
            assert(it.seq().take(it.index() + 1) == it.seq().take(it.index()).push(c));
        }
    }
    v
}


/// The length of the newline that starts at `offset` with code `code`:
/// 2 for a CR LF pair, otherwise 1.
pub open spec fn newline_length(s: Seq<char>, offset: int, code: u32) -> int {
    if code == 13 && code_at(s, offset + 1) == 10 {
        2
    } else {
        1
    }
}

/// ASCII lowercasing of a code: A..Z map to a..z, every other code is kept.
pub open spec fn lower(code: u32) -> u32 {
    if uppercase_letter(code) {
        (code + 32) as u32
    } else {
        code
    }
}

/// The code point at `offset` exists and, lowercased, equals `reference`.
pub open spec fn char_matches(s: Seq<char>, offset: int, reference: u32) -> bool {
    0 <= offset < s.len() && lower(code_at(s, offset)) == reference
}

/// `s[start..end]`, with A..Z lowercased, equals `reference`; the range must
/// start inside the text.
pub open spec fn range_matches(s: Seq<char>, start: int, end: int, reference: Seq<char>) -> bool {
    &&& end - start == reference.len()
    &&& start < s.len()
    &&& end <= s.len()
    &&& forall|i: int| 0 <= i < reference.len() ==> lower(#[trigger] code_at(s, start + i)) == reference[i] as u32
}

/// `char_matches` at an unsigned offset.
pub open spec fn char_matches_at(s: Seq<char>, offset: usize, reference: u32) -> bool {
    char_matches(s, offset as int, reference)
}

/// `range_matches` over an unsigned range.
pub open spec fn range_matches_at(s: Seq<char>, start: usize, end: usize, reference: Seq<char>) -> bool {
    range_matches(s, start as int, end as int, reference)
}

/// The first offset at or after `offset` that does not hold whitespace.
pub open spec fn white_space_end(s: Seq<char>, offset: int) -> int
    decreases s.len() - offset,
{
    if 0 <= offset < s.len() && white_space(code_at(s, offset)) {
        white_space_end(s, offset + 1)
    } else {
        offset
    }
}

/// The offset down to which the code points before `offset` are whitespace.
pub open spec fn white_space_start(s: Seq<char>, offset: int) -> int
    decreases offset,
{
    if 0 < offset && white_space(code_at(s, offset - 1)) {
        white_space_start(s, offset - 1)
    } else {
        offset
    }
}

/// The first offset at or after `offset` that does not hold a digit.
pub open spec fn decimal_end(s: Seq<char>, offset: int) -> int
    decreases s.len() - offset,
{
    if 0 <= offset < s.len() && digit(code_at(s, offset)) {
        decimal_end(s, offset + 1)
    } else {
        offset
    }
}

/// The first offset in `[offset, max)` that does not hold a hex digit, or `max`.
pub open spec fn hex_run_end(s: Seq<char>, offset: int, max: int) -> int
    decreases max - offset,
{
    if offset < max && hex_digit(code_at(s, offset)) {
        hex_run_end(s, offset + 1, max)
    } else {
        offset
    }
}

/// § 4.3.7: the end of an escape whose reverse solidus is at `offset`: the escaped
/// code point, or up to six hex digits followed by at most one whitespace.
pub open spec fn escaped_end(s: Seq<char>, offset: int) -> int {
    let o = offset + 2;
    if hex_digit(code_at(s, o - 1)) {
        let max = if s.len() < o + 5 { s.len() as int } else { o + 5 };
        let j = hex_run_end(s, o, max);
        let c = code_at(s, j);
        if white_space(c) {
            j + newline_length(s, j, c)
        } else {
            j
        }
    } else {
        o
    }
}

/// § 4.3.11: the end of the name that starts at `offset`.
pub open spec fn name_end(s: Seq<char>, offset: int) -> int
    decreases s.len() - offset,
{
    if 0 <= offset < s.len() {
        let c = code_at(s, offset);
        if name_code(c) {
            name_end(s, offset + 1)
        } else if valid_escape(c, code_at(s, offset + 1)) {
            proof {
                lemma_escaped_end_bounds(s, offset);
            }
            name_end(s, escaped_end(s, offset))
        } else {
            offset
        }
    } else {
        offset
    }
}

/// § 4.3.12: the end of the number that starts at `offset`: an optional sign,
/// digits, an optional fraction and an optional exponent.
pub open spec fn number_end(s: Seq<char>, offset: int) -> int {
    let c0 = code_at(s, offset);
    let o1 = if c0 == 0x2B || c0 == 0x2D { offset + 1 } else { offset };
    let c1 = code_at(s, o1);
    let o2 = if digit(c1) { decimal_end(s, o1 + 1) } else { o1 };
    let c2 = code_at(s, o2);
    let o3 = if c2 == 0x2E && digit(code_at(s, o2 + 1)) { decimal_end(s, o2 + 2) } else { o2 };
    if char_matches(s, o3, 101) {
        let c4 = code_at(s, o3 + 1);
        let sign: int = if c4 == 0x2D || c4 == 0x2B { 1 } else { 0 };
        let c5 = if sign == 1 { code_at(s, o3 + 2) } else { c4 };
        if digit(c5) {
            decimal_end(s, o3 + 1 + sign + 1)
        } else {
            o3
        }
    } else {
        o3
    }
}

/// § 4.3.14: the end of the remnants of a bad url that start at `offset`: up to
/// and including the next `)` that is not escaped, or the end of the text.
pub open spec fn bad_url_end(s: Seq<char>, offset: int) -> int
    decreases s.len() - offset,
{
    if 0 <= offset < s.len() {
        let c = code_at(s, offset);
        if c == 0x29 {
            offset + 1
        } else if valid_escape(c, code_at(s, offset + 1)) {
            proof {
                lemma_escaped_end_bounds(s, offset);
            }
            bad_url_end(s, escaped_end(s, offset))
        } else {
            bad_url_end(s, offset + 1)
        }
    } else {
        offset
    }
}

pub proof fn lemma_hex_run_end(s: Seq<char>, offset: int, max: int)
    requires
        offset <= max,
    ensures
        offset <= hex_run_end(s, offset, max) <= max,
        forall|k: int| offset <= k < hex_run_end(s, offset, max) ==> hex_digit(#[trigger] code_at(s, k)),
        hex_run_end(s, offset, max) < max ==> !hex_digit(code_at(s, hex_run_end(s, offset, max))),
    decreases max - offset,
{
    if offset < max && hex_digit(code_at(s, offset)) {
        lemma_hex_run_end(s, offset + 1, max);
    }
}

/// An escape ends at least two code points after its reverse solidus, and a valid
/// escape inside the text ends inside the text.
pub proof fn lemma_escaped_end_bounds(s: Seq<char>, offset: int)
    ensures
        escaped_end(s, offset) >= offset + 2,
        0 <= offset && offset + 1 < s.len() ==> escaped_end(s, offset) <= s.len(),
{
    let o = offset + 2;
    if hex_digit(code_at(s, o - 1)) {
        let max = if s.len() < o + 5 { s.len() as int } else { o + 5 };
        lemma_hex_run_end(s, o, max);
    }
}

pub proof fn lemma_white_space_end(s: Seq<char>, offset: int)
    ensures
        offset <= white_space_end(s, offset),
        0 <= offset <= s.len() ==> white_space_end(s, offset) <= s.len(),
        white_space_end(s, offset) < s.len() && 0 <= offset ==> !white_space(code_at(s, white_space_end(s, offset))),
    decreases s.len() - offset,
{
    if 0 <= offset < s.len() && white_space(code_at(s, offset)) {
        lemma_white_space_end(s, offset + 1);
    }
}

pub proof fn lemma_decimal_end(s: Seq<char>, offset: int)
    ensures
        offset <= decimal_end(s, offset),
        0 <= offset <= s.len() ==> decimal_end(s, offset) <= s.len(),
    decreases s.len() - offset,
{
    if 0 <= offset < s.len() && digit(code_at(s, offset)) {
        lemma_decimal_end(s, offset + 1);
    }
}

pub proof fn lemma_name_end(s: Seq<char>, offset: int)
    ensures
        offset <= name_end(s, offset),
        0 <= offset <= s.len() ==> name_end(s, offset) <= s.len(),
    decreases s.len() - offset,
{
    if 0 <= offset < s.len() {
        let c = code_at(s, offset);
        if name_code(c) {
            lemma_name_end(s, offset + 1);
        } else if valid_escape(c, code_at(s, offset + 1)) {
            lemma_escaped_end_bounds(s, offset);
            lemma_name_end(s, escaped_end(s, offset));
        }
    }
}

pub proof fn lemma_bad_url_end(s: Seq<char>, offset: int)
    ensures
        offset <= bad_url_end(s, offset),
        0 <= offset <= s.len() ==> bad_url_end(s, offset) <= s.len(),
    decreases s.len() - offset,
{
    if 0 <= offset < s.len() {
        let c = code_at(s, offset);
        if c == 0x29 {
        } else if valid_escape(c, code_at(s, offset + 1)) {
            lemma_escaped_end_bounds(s, offset);
            lemma_bad_url_end(s, escaped_end(s, offset));
        } else {
            lemma_bad_url_end(s, offset + 1);
        }
    }
}

pub proof fn lemma_number_end(s: Seq<char>, offset: int)
    requires
        0 <= offset,
    ensures
        offset <= number_end(s, offset),
        offset <= s.len() ==> number_end(s, offset) <= s.len(),
{
    let c0 = code_at(s, offset);
    let o1 = if c0 == 0x2B || c0 == 0x2D { offset + 1 } else { offset };
    let c1 = code_at(s, o1);
    lemma_decimal_end(s, o1 + 1);
    let o2 = if digit(c1) { decimal_end(s, o1 + 1) } else { o1 };
    let c2 = code_at(s, o2);
    lemma_decimal_end(s, o2 + 2);
    let o3 = if c2 == 0x2E && digit(code_at(s, o2 + 1)) { decimal_end(s, o2 + 2) } else { o2 };
    let c4 = code_at(s, o3 + 1);
    let sign: int = if c4 == 0x2D || c4 == 0x2B { 1 } else { 0 };
    lemma_decimal_end(s, o3 + 1 + sign + 1);
}

/// The code of the code point at `i`, or 0 past the end.
pub(crate) fn char_code_in(s: &[char], i: usize) -> (r: u32)
    ensures
        r == code_at(s@, i as int),
{
    if i < s.len() {
        s[i] as u32
    } else {
        0
    }
}

pub(crate) fn get_newline_length_in(s: &[char], offset: usize, code: u32) -> (r: usize)
    requires
        code == 13 ==> offset < usize::MAX,
    ensures
        r == newline_length(s@, offset as int, code),
{
    if code == 13 && char_code_in(s, offset + 1) == 10 {
        2
    } else {
        1
    }
}

pub(crate) fn lower_code(code: u32) -> (r: u32)
    ensures
        r == lower(code),
{
    if is_uppercase_letter(code) {
        assert(0x41 <= code <= 0x5A ==> code | 32 == code + 32) by (bit_vector);
        code | 32
    } else {
        code
    }
}

pub(crate) fn matches_char_in(s: &[char], offset: usize, reference_code: u32) -> (r: bool)
    ensures
        r == char_matches(s@, offset as int, reference_code),
{
    if offset < s.len() {
        lower_code(s[offset] as u32) == reference_code
    } else {
        false
    }
}

pub(crate) fn matches_range_in(s: &[char], start: usize, end: usize, reference: &[char]) -> (r: bool)
    requires
        start <= end,
    ensures
        r == range_matches(s@, start as int, end as int, reference@),
{
    if end - start != reference.len() || start >= s.len() || end > s.len() {
        return false;
    }
    let mut i: usize = 0;
    while i < reference.len()
        invariant
            end - start == reference@.len(),
            end <= s@.len(),
            i <= reference@.len(),
            forall|k: int| 0 <= k < i ==> lower(#[trigger] code_at(s@, start + k)) == reference@[k] as u32,
        decreases reference.len() - i,
    {
        let test_code = lower_code(s[start + i] as u32);
        if test_code != reference[i] as u32 {
            assert(lower(code_at(s@, start + i)) != reference@[i as int] as u32);
            return false;
        }
        i += 1;
    }
    true
}

pub(crate) fn find_white_space_start_in(s: &[char], offset: usize) -> (r: usize)
    requires
        offset <= s@.len(),
    ensures
        r == white_space_start(s@, offset as int),
{
    let mut off = offset;
    while off > 0 && is_white_space(s[off - 1] as u32)
        invariant
            off <= s@.len(),
            white_space_start(s@, off as int) == white_space_start(s@, offset as int),
        decreases off,
    {
        off -= 1;
    }
    off
}

pub(crate) fn find_white_space_end_in(s: &[char], offset: usize) -> (r: usize)
    ensures
        r == white_space_end(s@, offset as int),
{
    let mut off = offset;
    while off < s.len() && is_white_space(s[off] as u32)
        invariant
            white_space_end(s@, off as int) == white_space_end(s@, offset as int),
        decreases s.len() - off,
    {
        off += 1;
    }
    off
}

pub(crate) fn find_decimal_number_end_in(s: &[char], offset: usize) -> (r: usize)
    ensures
        r == decimal_end(s@, offset as int),
{
    let mut off = offset;
    while off < s.len() && is_digit(s[off] as u32)
        invariant
            decimal_end(s@, off as int) == decimal_end(s@, offset as int),
        decreases s.len() - off,
    {
        off += 1;
    }
    off
}

pub(crate) fn consume_escaped_in(s: &[char], offset: usize) -> (r: usize)
    requires
        offset <= usize::MAX - 2,
    ensures
        r == escaped_end(s@, offset as int),
{
    let mut off = offset + 2;
    if is_hex_digit(char_code_in(s, off - 1)) {
        let max_offset = if s.len() - off < 5 { s.len() } else { off + 5 };
        let ghost o = off as int;
        proof {
            lemma_hex_run_end(s@, o, max_offset as int);
        }
        while off < max_offset && is_hex_digit(char_code_in(s, off))
            invariant
                o <= off <= max_offset <= s@.len(),
                hex_run_end(s@, off as int, max_offset as int) == hex_run_end(s@, o, max_offset as int),
            decreases max_offset - off,
        {
            off += 1;
        }
        let code = char_code_in(s, off);
        if is_white_space(code) {
            off += get_newline_length_in(s, off, code);
        }
    }
    off
}

pub(crate) fn consume_name_in(s: &[char], offset: usize) -> (r: usize)
    ensures
        r == name_end(s@, offset as int),
{
    let mut off = offset;
    loop
        invariant
            name_end(s@, off as int) == name_end(s@, offset as int),
            off == offset || off <= s@.len(),
        ensures
            off as int == name_end(s@, offset as int),
        decreases s@.len() - off,
    {
        if off >= s.len() {
            break;
        }
        let code = s[off] as u32;
        if is_name(code) {
            off += 1;
        } else if is_valid_escape(code, char_code_in(s, off + 1)) {
            proof {
                lemma_escaped_end_bounds(s@, off as int);
            }
            off = consume_escaped_in(s, off);
        } else {
            break;
        }
    }
    off
}

pub(crate) fn consume_number_in(s: &[char], offset: usize) -> (r: usize)
    requires
        s@.len() <= isize::MAX,
    ensures
        r == number_end(s@, offset as int),
{
    let mut off = offset;
    let mut code = char_code_in(s, off);
    if code == 0x2B || code == 0x2D {
        off += 1;
        code = char_code_in(s, off);
    }
    if is_digit(code) {
        proof {
            lemma_decimal_end(s@, off + 1);
        }
        off = find_decimal_number_end_in(s, off + 1);
        code = char_code_in(s, off);
    }
    if code == 0x2E && is_digit(char_code_in(s, off + 1)) {
        off += 2;
        proof {
            lemma_decimal_end(s@, off as int);
        }
        off = find_decimal_number_end_in(s, off);
    }
    if matches_char_in(s, off, 101) {
        let mut sign: usize = 0;
        code = char_code_in(s, off + 1);
        if code == 0x2D || code == 0x2B {
            sign = 1;
            code = char_code_in(s, off + 2);
        }
        if is_digit(code) {
            off = find_decimal_number_end_in(s, off + 1 + sign + 1);
        }
    }
    off
}

pub(crate) fn consume_bad_url_remnants_in(s: &[char], offset: usize) -> (r: usize)
    ensures
        r == bad_url_end(s@, offset as int),
{
    let mut off = offset;
    loop
        invariant_except_break
            bad_url_end(s@, off as int) == bad_url_end(s@, offset as int),
            off == offset || off <= s@.len(),
        ensures
            off as int == bad_url_end(s@, offset as int),
        decreases s@.len() - off,
    {
        if off >= s.len() {
            break;
        }
        let code = s[off] as u32;
        if code == 0x29 {
            off += 1;
            break;
        }
        if is_valid_escape(code, char_code_in(s, off + 1)) {
            proof {
                lemma_escaped_end_bounds(s@, off as int);
            }
            off = consume_escaped_in(s, off);
        } else {
            off += 1;
        }
    }
    off
}


/// The value of a hex digit.
pub open spec fn hex_value(code: u32) -> nat {
    if digit(code) {
        (code - 0x30) as nat
    } else if 0x41 <= code <= 0x46 {
        (code - 0x41 + 10) as nat
    } else {
        (code - 0x61 + 10) as nat
    }
}

/// The number that a sequence of hex digits writes.
pub open spec fn hex_number(d: Seq<char>) -> nat
    decreases d.len(),
{
    if d.len() == 0 {
        0
    } else {
        hex_number(d.drop_last()) * 16 + hex_value(d.last() as u32)
    }
}

/// The digits of a base-16 numeral: what follows an optional leading `+`.
pub open spec fn radix16_digits(e: Seq<char>) -> Seq<char> {
    if e.len() > 0 && e[0] as u32 == 0x2B {
        e.drop_first()
    } else {
        e
    }
}

/// At least one code point, and all of them hex digits.
pub open spec fn hex_digits_only(d: Seq<char>) -> bool {
    d.len() > 0 && forall|i: int| 0 <= i < d.len() ==> hex_digit(#[trigger] d[i] as u32)
}

/// A Unicode scalar value: at most U+10FFFF and not a surrogate.
pub open spec fn scalar_value(code: int) -> bool {
    0 <= code <= 0x10FFFF && !(0xD800 <= code <= 0xDFFF)
}

/// § 4.3.7: the code point that an escape (without its reverse solidus) stands for.
/// A single code point that is not a hex digit stands for itself; otherwise
/// the text is read as a base-16 numeral, and a malformed numeral, zero, a surrogate
/// or a value above U+10FFFF gives U+FFFD REPLACEMENT CHARACTER.
pub open spec fn escaped_code(e: Seq<char>) -> u32 {
    if e.len() == 1 && !hex_digit(e[0] as u32) {
        e[0] as u32
    } else {
        let d = radix16_digits(e);
        if hex_digits_only(d) && hex_number(d) != 0 && scalar_value(hex_number(d) as int) {
            hex_number(d) as u32
        } else {
            0xFFFD
        }
    }
}

/// `char::from_u32`: the char whose scalar value is `code`, present exactly when
/// `code` is a Unicode scalar value.
#[verifier::external_body]
fn char_from_u32(code: u32) -> (r: Option<char>)
    ensures
        r is Some <==> scalar_value(code as int),
        r matches Some(c) ==> c as u32 == code,
{
    char::from_u32(code)
}

fn hex_value_of(code: u32) -> (r: u32)
    requires
        hex_digit(code),
    ensures
        r == hex_value(code),
        r < 16,
{
    if code <= 0x39 {
        code - 0x30
    } else if code <= 0x46 {
        code - 0x41 + 10
    } else {
        code - 0x61 + 10
    }
}

/// The code of the code point at `offset`, or 0 (end of input) past the end.
pub fn get_char_code(source: &str, offset: usize) -> (r: u32)
    ensures
        r == code_at(source@, offset as int),
{
    let s = to_chars(source);
    char_code_in(&s, offset)
}

/// 2 when `code` is a carriage return followed by a line feed, otherwise 1.
pub fn get_newline_length(source: &str, offset: usize, code: u32) -> (r: usize)
    requires
        code == 13 ==> offset < usize::MAX,
    ensures
        r == newline_length(source@, offset as int, code),
{
    let s = to_chars(source);
    get_newline_length_in(&s, offset, code)
}

/// Compares the code point at `offset`, lowercased for A..Z, with `reference_code`.
pub fn cmp_char(test_str: &str, offset: usize, reference_code: u32) -> (r: bool)
    ensures
        r == char_matches_at(test_str@, offset, reference_code),
{
    let s = to_chars(test_str);
    matches_char_in(&s, offset, reference_code)
}

/// Compares `test_str[start..end]`, lowercased for A..Z, with `reference_str`.
pub fn cmp_str(test_str: &str, start: usize, end: usize, reference_str: &str) -> (r: bool)
    requires
        start <= end,
    ensures
        r == range_matches_at(test_str@, start, end, reference_str@),
{
    let s = to_chars(test_str);
    let reference = to_chars(reference_str);
    matches_range_in(&s, start, end, &reference)
}

/// Walks back over the whitespace that precedes `offset`.
pub fn find_white_space_start(source: &str, offset: usize) -> (r: usize)
    requires
        offset <= source@.len(),
    ensures
        r == white_space_start(source@, offset as int),
{
    let s = to_chars(source);
    find_white_space_start_in(&s, offset)
}

/// Walks forward over the whitespace that starts at `offset`.
pub fn find_white_space_end(source: &str, offset: usize) -> (r: usize)
    ensures
        r == white_space_end(source@, offset as int),
{
    let s = to_chars(source);
    find_white_space_end_in(&s, offset)
}

/// Walks forward over the digits that start at `offset`.
pub fn find_decimal_number_end(source: &str, offset: usize) -> (r: usize)
    ensures
        r == decimal_end(source@, offset as int),
{
    let s = to_chars(source);
    find_decimal_number_end_in(&s, offset)
}

/// § 4.3.7: consumes an escape whose reverse solidus is at `offset` (the escape is
/// assumed valid) and returns the offset after it.
pub fn consume_escaped(source: &str, offset: usize) -> (r: usize)
    requires
        offset <= usize::MAX - 2,
    ensures
        r == escaped_end(source@, offset as int),
{
    let s = to_chars(source);
    consume_escaped_in(&s, offset)
}

/// § 4.3.11: consumes a name (name code points and valid escapes) from `offset`.
pub fn consume_name(source: &str, offset: usize) -> (r: usize)
    ensures
        r == name_end(source@, offset as int),
{
    let s = to_chars(source);
    consume_name_in(&s, offset)
}

/// § 4.3.12: consumes a number from `offset` and returns the offset after it.
pub fn consume_number(source: &str, offset: usize) -> (r: usize)
    requires
        source@.len() <= isize::MAX,
    ensures
        r == number_end(source@, offset as int),
{
    let s = to_chars(source);
    consume_number_in(&s, offset)
}

/// § 4.3.14: consumes the remnants of a bad url from `offset`.
pub fn consume_bad_url_remnants(source: &str, offset: usize) -> (r: usize)
    ensures
        r == bad_url_end(source@, offset as int),
{
    let s = to_chars(source);
    consume_bad_url_remnants_in(&s, offset)
}

/// § 4.3.7: the code point that an escape (given without its reverse solidus) stands for.
pub fn decode_escaped(escaped: &str) -> (r: char)
    ensures
        r as u32 == escaped_code(escaped@),
{
    let e = to_chars(escaped);
    if e.len() == 1 && !is_hex_digit(e[0] as u32) {
        return e[0];
    }
    let start: usize = if e.len() > 0 && e[0] as u32 == 0x2B { 1 } else { 0 };
    let ghost d = radix16_digits(e@);
    assert(d =~= e@.subrange(start as int, e@.len() as int));
    let mut value: u32 = 0;
    let mut too_big = false;
    let mut all_hex = true;
    let mut i = start;
    while i < e.len()
        invariant
            start <= i <= e@.len(),
            d == e@.subrange(start as int, e@.len() as int),
            all_hex == (forall|k: int| 0 <= k < i - start ==> hex_digit(#[trigger] d[k] as u32)),
            all_hex && !too_big ==> value == hex_number(d.take(i - start)) && value <= 0x10FFFF,
            all_hex && too_big ==> hex_number(d.take(i - start)) > 0x10FFFF,
        decreases e.len() - i,
    {
        let code = e[i] as u32;
        let ghost k = i - start;
        proof {
            assert(d.take(k + 1).drop_last() == d.take(k));
            assert(d.take(k + 1).last() == d[k]);
        }
        if all_hex && is_hex_digit(code) {
            let h = hex_value_of(code);
            if !too_big {
                let next = value * 16 + h;
                if next > 0x10FFFF {
                    too_big = true;
                } else {
                    value = next;
                }
            }
        } else {
            all_hex = false;
        }
        i += 1;
    }
    proof {
        assert(d.take(d.len() as int) == d);
    }
    let code: u32 = if all_hex && i > start && !too_big && value != 0 && !(0xD800 <= value
        && value <= 0xDFFF) {
        value
    } else {
        0xFFFD
    };
    match char_from_u32(code) {
        Some(c) => c,
        None => '\u{FFFD}',
    }
}

} // verus!
