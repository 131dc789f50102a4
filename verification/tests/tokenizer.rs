use csstree::tokenizer::char_code_definitions::{
    char_code_category, is_bom, is_digit, is_hex_digit, is_identifier_start, is_letter, is_lowercase_letter,
    is_name, is_name_start, is_newline, is_non_ascii, is_non_printable, is_number_start, is_uppercase_letter,
    is_valid_escape, is_white_space, DIGIT_CATEGORY, NAME_START_CATEGORY, NON_PRINTABLE_CATEGORY,
    WHITE_SPACE_CATEGORY,
};
use csstree::tokenizer::tokenize;
use csstree::tokenizer::types::{
    BAD_STRING, CDC, COMMA, DELIM, DIMENSION, FUNCTION, HASH, LEFT_PARENTHESIS, NUMBER, PERCENTAGE,
    RIGHT_PARENTHESIS, STRING, WHITE_SPACE,
};
use csstree::tokenizer::utils::{
    cmp_char, cmp_str, consume_bad_url_remnants, consume_escaped, consume_name, consume_number, decode_escaped,
    find_decimal_number_end, find_white_space_end, find_white_space_start, get_char_code, get_newline_length,
    to_chars,
};

fn code(c: char) -> u32 {
    c as u32
}

#[test]
fn tokenize_empty_source() {
    assert_eq!(tokenize(""), vec![]);
}

#[test]
fn tokenize_letters_and_whitespace() {
    assert_eq!(tokenize("a b"), vec![(DELIM, 0, 1), (WHITE_SPACE, 1, 2), (DELIM, 2, 3)]);
    assert_eq!(tokenize("  \n x"), vec![(WHITE_SPACE, 0, 4), (DELIM, 4, 5)]);
}

#[test]
fn tokenize_strings() {
    assert_eq!(tokenize("'abc'"), vec![(STRING, 0, 5)]);
    assert_eq!(tokenize("\"x\""), vec![(STRING, 0, 3)]);
}

#[test]
fn tokenize_unterminated_string_ends_after_its_quote() {
    assert_eq!(tokenize("\"ab"), vec![(STRING, 0, 1), (DELIM, 1, 2), (DELIM, 2, 3)]);
}

#[test]
fn tokenize_string_broken_by_newline() {
    assert_eq!(
        tokenize("'a\nb'"),
        vec![(BAD_STRING, 0, 2), (WHITE_SPACE, 2, 3), (DELIM, 3, 4), (STRING, 4, 5)]
    );
    assert_eq!(
        tokenize("'ab\nc"),
        vec![(BAD_STRING, 0, 2), (DELIM, 2, 3), (WHITE_SPACE, 3, 4), (DELIM, 4, 5)]
    );
}

#[test]
fn tokenize_hash_and_lone_hash() {
    assert_eq!(tokenize("#foo"), vec![(HASH, 0, 4)]);
    assert_eq!(tokenize("#"), vec![(DELIM, 0, 1)]);
}

#[test]
fn tokenize_numbers() {
    assert_eq!(tokenize("+1"), vec![(NUMBER, 0, 2)]);
    assert_eq!(tokenize(".5"), vec![(NUMBER, 0, 2)]);
    assert_eq!(tokenize("-1px"), vec![(DIMENSION, 0, 4)]);
    assert_eq!(tokenize("-5%"), vec![(PERCENTAGE, 0, 3)]);
}

#[test]
fn tokenize_minus_forms() {
    assert_eq!(tokenize("-->"), vec![(CDC, 0, 3)]);
    assert_eq!(tokenize("-foo("), vec![(FUNCTION, 0, 5)]);
    assert_eq!(tokenize("-"), vec![(DELIM, 0, 1)]);
    assert_eq!(tokenize("+"), vec![(DELIM, 0, 1)]);
}

#[test]
fn tokenize_punctuation() {
    assert_eq!(tokenize("(,)"), vec![(LEFT_PARENTHESIS, 0, 1), (COMMA, 1, 2), (RIGHT_PARENTHESIS, 2, 3)]);
}

#[test]
fn tokenize_skips_byte_order_mark() {
    // The mark is three bytes long, so two more offsets are scanned past the text.
    assert_eq!(tokenize("\u{FEFF}a"), vec![(DELIM, 1, 2), (DELIM, 2, 3), (DELIM, 3, 4)]);
}

#[test]
fn tokenize_scans_up_to_the_byte_length() {
    assert_eq!(tokenize("\u{e9}"), vec![(DELIM, 0, 1), (DELIM, 1, 2)]);
    assert_eq!(tokenize("a\u{e9} "), vec![(DELIM, 0, 1), (DELIM, 1, 2), (WHITE_SPACE, 2, 3), (DELIM, 3, 4)]);
}

#[test]
fn tokens_cover_the_source_one_after_another() {
    let source = "-1px 'a' #id (+2, .5%)";
    let tokens = tokenize(source);
    let len = to_chars(source).len();
    assert!(!tokens.is_empty());
    assert_eq!(tokens[0].1, 0);
    for k in 0..tokens.len() {
        assert!(tokens[k].1 < tokens[k].2);
        if k + 1 < tokens.len() {
            assert_eq!(tokens[k].2, tokens[k + 1].1);
        }
    }
    assert_eq!(tokens[tokens.len() - 1].2, len);
}

#[test]
fn code_point_classes() {
    assert!(is_digit(code('5')));
    assert!(!is_digit(code('a')));
    assert!(is_hex_digit(code('F')) && is_hex_digit(code('a')) && !is_hex_digit(code('g')));
    assert!(is_uppercase_letter(code('Q')) && !is_uppercase_letter(code('q')));
    assert!(is_lowercase_letter(code('q')) && !is_lowercase_letter(code('Q')));
    assert!(is_letter(code('z')) && !is_letter(code('_')));
    assert!(is_non_ascii(0x80) && !is_non_ascii(0x7F));
    assert!(is_name_start(code('_')) && is_name_start(0xE9) && !is_name_start(code('1')));
    assert!(is_name(code('-')) && is_name(code('1')) && !is_name(code(' ')));
    assert!(is_non_printable(0x0B) && is_non_printable(0x7F) && !is_non_printable(0x0A));
    assert!(is_newline(0x0A) && is_newline(0x0C) && is_newline(0x0D) && !is_newline(0x09));
    assert!(is_white_space(0x09) && is_white_space(code(' ')) && !is_white_space(code('x')));
    assert!(is_bom(0xFEFF) && is_bom(0xFFFE) && !is_bom(code('a')));
}

#[test]
fn three_code_point_checks() {
    assert!(is_valid_escape(code('\\'), code('a')));
    assert!(!is_valid_escape(code('\\'), 0x0A));
    assert!(!is_valid_escape(code('\\'), 0));
    assert!(is_identifier_start(code('-'), code('-'), 0));
    assert!(!is_identifier_start(code('-'), code('1'), 0));
    assert!(is_identifier_start(code('\\'), code('n'), 0));
    assert!(!is_identifier_start(code('\\'), 0x0A, 0));
    assert_eq!(is_number_start(code('+'), code('1'), 0), 2);
    assert_eq!(is_number_start(code('+'), code('.'), code('5')), 3);
    assert_eq!(is_number_start(code('.'), code('5'), 0), 2);
    assert_eq!(is_number_start(code('7'), 0, 0), 1);
    assert_eq!(is_number_start(code('a'), 0, 0), 0);
}

#[test]
fn code_point_categories() {
    assert_eq!(char_code_category(code('a')), NAME_START_CATEGORY);
    assert_eq!(char_code_category(code(' ')), WHITE_SPACE_CATEGORY);
    assert_eq!(char_code_category(code('5')), DIGIT_CATEGORY);
    assert_eq!(char_code_category(code('(')), 0x28);
    assert_eq!(char_code_category(0xE9), NAME_START_CATEGORY);
    assert_eq!(char_code_category(0x7F), NON_PRINTABLE_CATEGORY);
}

#[test]
fn char_codes_and_newlines() {
    assert_eq!(get_char_code("abc", 1), code('b'));
    assert_eq!(get_char_code("abc", 3), 0);
    assert_eq!(get_newline_length("a\r\nb", 1, 13), 2);
    assert_eq!(get_newline_length("a\rb", 1, 13), 1);
    assert_eq!(get_newline_length("a", usize::MAX, 10), 1);
    assert_eq!(to_chars("h\u{e9}llo"), vec!['h', '\u{e9}', 'l', 'l', 'o']);
}

#[test]
fn case_insensitive_comparisons() {
    assert!(cmp_char("ABC", 1, code('b')));
    assert!(!cmp_char("ABC", 3, code('b')));
    assert!(cmp_str("URL(", 0, 3, "url"));
    assert!(!cmp_str("url", 0, 2, "url"));
}

#[test]
fn whitespace_and_digit_runs() {
    assert_eq!(find_white_space_start("ab  c", 4), 2);
    assert_eq!(find_white_space_end("ab  c", 2), 4);
    assert_eq!(find_decimal_number_end("12a", 0), 2);
}

#[test]
fn escapes_names_numbers_and_bad_urls() {
    assert_eq!(consume_escaped("\\41 x", 0), 4);
    assert_eq!(consume_escaped("\\n", 0), 2);
    assert_eq!(consume_name("ab-c d", 0), 4);
    assert_eq!(consume_name("a\\41b ", 0), 6);
    assert_eq!(consume_number("12.5e+3x", 0), 7);
    assert_eq!(consume_number("1e", 0), 1);
    assert_eq!(consume_bad_url_remnants("ab)c", 0), 3);
    assert_eq!(consume_bad_url_remnants("a\\)b)", 0), 5);
}

#[test]
fn decode_escaped_values() {
    assert_eq!(decode_escaped("41"), 'A');
    assert_eq!(decode_escaped("+41"), 'A');
    assert_eq!(decode_escaped("z"), 'z');
    assert_eq!(decode_escaped("a"), '\n');
    assert_eq!(decode_escaped("1F600"), '\u{1F600}');
    assert_eq!(decode_escaped("\u{e9}"), '\u{e9}');
}

#[test]
fn decode_escaped_replacement_character() {
    assert_eq!(decode_escaped("0"), '\u{FFFD}');
    assert_eq!(decode_escaped("D800"), '\u{FFFD}');
    assert_eq!(decode_escaped("110000"), '\u{FFFD}');
    assert_eq!(decode_escaped("g1"), '\u{FFFD}');
    assert_eq!(decode_escaped(""), '\u{FFFD}');
}
