//! Code point classes of CSS Syntax § 4.2 and the three-code-point checks of § 4.3.
use vstd::prelude::*;

verus! {

/// The code that stands for the end of input.
pub const EOF: u32 = 0;

/// Category of the end of input.
pub const EOF_CATEGORY: u32 = 0x80;

/// Category of whitespace code points.
pub const WHITE_SPACE_CATEGORY: u32 = 0x82;

/// Category of digits.
pub const DIGIT_CATEGORY: u32 = 0x83;

/// Category of name-start code points.
pub const NAME_START_CATEGORY: u32 = 0x84;

/// Category of non-printable code points.
pub const NON_PRINTABLE_CATEGORY: u32 = 0x85;

/// A code point between U+0030 (0) and U+0039 (9).
pub open spec fn digit(code: u32) -> bool {
    0x30 <= code <= 0x39
}

/// A digit, or a code point in A..F or a..f.
pub open spec fn hex_digit(code: u32) -> bool {
    digit(code) || (0x41 <= code <= 0x46) || (0x61 <= code <= 0x66)
}

/// A code point between U+0041 (A) and U+005A (Z).
pub open spec fn uppercase_letter(code: u32) -> bool {
    0x41 <= code <= 0x5A
}

/// A code point between U+0061 (a) and U+007A (z).
pub open spec fn lowercase_letter(code: u32) -> bool {
    0x61 <= code <= 0x7A
}

/// An uppercase or a lowercase letter.
pub open spec fn letter(code: u32) -> bool {
    uppercase_letter(code) || lowercase_letter(code)
}

/// A code point at or above U+0080.
pub open spec fn non_ascii(code: u32) -> bool {
    code >= 0x80
}

/// A letter, a non-ASCII code point, or U+005F (_).
pub open spec fn name_start(code: u32) -> bool {
    letter(code) || non_ascii(code) || code == 0x5F
}

/// A name-start code point, a digit, or U+002D (-).
pub open spec fn name_code(code: u32) -> bool {
    name_start(code) || digit(code) || code == 0x2D
}

/// U+0000..U+0008, U+000B, U+000E..U+001F or U+007F.
pub open spec fn non_printable(code: u32) -> bool {
    code <= 0x08 || code == 0x0B || (0x0E <= code <= 0x1F) || code == 0x7F
}

/// Line feed, carriage return or form feed.
pub open spec fn newline(code: u32) -> bool {
    code == 0x0A || code == 0x0D || code == 0x0C
}

/// A newline, U+0009 (tab) or U+0020 (space).
pub open spec fn white_space(code: u32) -> bool {
    newline(code) || code == 0x20 || code == 0x09
}

/// § 4.3.8: a reverse solidus that is not followed by a newline or the end of input.
pub open spec fn valid_escape(first: u32, second: u32) -> bool {
    first == 0x5C && !newline(second) && second != EOF
}

/// § 4.3.9: the three code points would start an identifier.
pub open spec fn identifier_start(first: u32, second: u32, third: u32) -> bool {
    if first == 0x2D {
        name_start(second) || second == 0x2D || valid_escape(second, third)
    } else if name_start(first) {
        true
    } else if first == 0x5C {
        valid_escape(first, second)
    } else {
        false
    }
}

/// § 4.3.10: how many of the three code points start a number, or 0 when they do not.
pub open spec fn number_start(first: u32, second: u32, third: u32) -> u32 {
    if first == 0x2B || first == 0x2D {
        if digit(second) {
            2
        } else if second == 0x2E && digit(third) {
            3
        } else {
            0
        }
    } else if first == 0x2E {
        if digit(second) {
            2
        } else {
            0
        }
    } else if digit(first) {
        1
    } else {
        0
    }
}

/// A byte order mark: U+FEFF or U+FFFE.
pub open spec fn bom(code: u32) -> bool {
    code == 0xFEFF || code == 0xFFFE
}

/// The fast category of a code point: one of the category constants for the
/// ASCII classes, the code itself for other ASCII code points, and the
/// name-start category for every non-ASCII code point.
pub open spec fn category(code: u32) -> u32 {
    if code < 0x80 {
        if white_space(code) {
            WHITE_SPACE_CATEGORY
        } else if digit(code) {
            DIGIT_CATEGORY
        } else if name_start(code) {
            NAME_START_CATEGORY
        } else if non_printable(code) {
            NON_PRINTABLE_CATEGORY
        } else {
            code
        }
    } else {
        NAME_START_CATEGORY
    }
}

pub fn is_digit(code: u32) -> (r: bool)
    ensures
        r == digit(code),
{
    0x30 <= code && code <= 0x39
}

pub fn is_hex_digit(code: u32) -> (r: bool)
    ensures
        r == hex_digit(code),
{
    is_digit(code) || (0x41 <= code && code <= 0x46) || (0x61 <= code && code <= 0x66)
}

pub fn is_uppercase_letter(code: u32) -> (r: bool)
    ensures
        r == uppercase_letter(code),
{
    0x41 <= code && code <= 0x5A
}

pub fn is_lowercase_letter(code: u32) -> (r: bool)
    ensures
        r == lowercase_letter(code),
{
    0x61 <= code && code <= 0x7A
}

pub fn is_letter(code: u32) -> (r: bool)
    ensures
        r == letter(code),
{
    is_uppercase_letter(code) || is_lowercase_letter(code)
}

/// Every code point at or above U+0080 counts as non-ASCII (the broader,
/// browser-compatible reading of the specification).
pub fn is_non_ascii(code: u32) -> (r: bool)
    ensures
        r == non_ascii(code),
{
    code >= 0x80
}

pub fn is_name_start(code: u32) -> (r: bool)
    ensures
        r == name_start(code),
{
    is_letter(code) || is_non_ascii(code) || code == 0x5F
}

pub fn is_name(code: u32) -> (r: bool)
    ensures
        r == name_code(code),
{
    is_name_start(code) || is_digit(code) || code == 0x2D
}

pub fn is_non_printable(code: u32) -> (r: bool)
    ensures
        r == non_printable(code),
{
    code <= 0x08 || code == 0x0B || (0x0E <= code && code <= 0x1F) || code == 0x7F
}

/// Carriage return and form feed count as newlines too: the input is not preprocessed.
pub fn is_newline(code: u32) -> (r: bool)
    ensures
        r == newline(code),
{
    code == 0x0A || code == 0x0D || code == 0x0C
}

pub fn is_white_space(code: u32) -> (r: bool)
    ensures
        r == white_space(code),
{
    is_newline(code) || code == 0x20 || code == 0x09
}

pub fn is_valid_escape(first: u32, second: u32) -> (r: bool)
    ensures
        r == valid_escape(first, second),
{
    if first != 0x5C {
        return false;
    }
    if is_newline(second) || second == EOF {
        return false;
    }
    true
}

pub fn is_identifier_start(first: u32, second: u32, third: u32) -> (r: bool)
    ensures
        r == identifier_start(first, second, third),
{
    if first == 0x2D {
        return is_name_start(second) || second == 0x2D || is_valid_escape(second, third);
    }
    if is_name_start(first) {
        return true;
    }
    if first == 0x5C {
        return is_valid_escape(first, second);
    }
    false
}

/// Returns how many code points the number start takes (1, 2 or 3), or 0.
pub fn is_number_start(first: u32, second: u32, third: u32) -> (r: u32)
    ensures
        r == number_start(first, second, third),
        r <= 3,
{
    if first == 0x2B || first == 0x2D {
        if is_digit(second) {
            return 2;
        }
        if second == 0x2E && is_digit(third) {
            return 3;
        }
        return 0;
    }
    if first == 0x2E {
        if is_digit(second) {
            return 2;
        }
        return 0;
    }
    if is_digit(first) {
        return 1;
    }
    0
}

/// Detects a byte order mark (UTF-16BE U+FEFF or UTF-16LE U+FFFE).
pub fn is_bom(code: u32) -> (r: bool)
    ensures
        r == bom(code),
{
    if code == 0xFEFF {
        return true;
    }
    if code == 0xFFFE {
        return true;
    }
    false
}

pub fn char_code_category(code: u32) -> (r: u32)
    ensures
        r == category(code),
{
    if code < 0x80 {
        if is_white_space(code) {
            return WHITE_SPACE_CATEGORY;
        } else if is_digit(code) {
            return DIGIT_CATEGORY;
        } else if is_name_start(code) {
            return NAME_START_CATEGORY;
        } else if is_non_printable(code) {
            return NON_PRINTABLE_CATEGORY;
        } else {
            return code;
        }
    }
    NAME_START_CATEGORY
}

/// `+` and `-` start a number alike.  With either sign, a digit next gives 2, a
/// `.` and then a digit give 3, and anything else gives 0.
pub proof fn signs_start_numbers_alike(second: u32, third: u32)
    ensures
        number_start(0x2D, second, third) == number_start(0x2B, second, third),
        0x30 <= second <= 0x39 ==> number_start(0x2D, second, third) == 2,
        second == 0x2E && 0x30 <= third <= 0x39 ==> number_start(0x2D, second, third) == 3,
        !(0x30 <= second <= 0x39) && !(second == 0x2E && 0x30 <= third <= 0x39) ==> number_start(
            0x2D,
            second,
            third,
        ) == 0,
{
}

} // verus!
