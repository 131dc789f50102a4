use csstree::lexer::generic_an_plus_b::an_plus_b;
use csstree::lexer::generic_urange::urange;
use csstree::lexer::lexer::Lexer;
use csstree::lexer::tokenizer::{Token, TokenType};

fn tok(token_type: TokenType, value: &str) -> Token {
    Token { token_type, value: value.to_string() }
}

fn tokens(list: &[(TokenType, &str)]) -> Vec<Token> {
    list.iter().map(|(t, v)| tok(*t, v)).collect()
}

fn an_plus_b_of(list: &[(TokenType, &str)]) -> usize {
    let ts = tokens(list);
    an_plus_b(tok(list[0].0, list[0].1), &ts)
}

fn urange_of(list: &[(TokenType, &str)]) -> usize {
    let ts = tokens(list);
    urange(Some(tok(list[0].0, list[0].1)), &ts)
}

#[test]
fn an_plus_b_plain_integer() {
    assert_eq!(an_plus_b_of(&[(TokenType::Number, "3")]), 1);
    assert_eq!(an_plus_b_of(&[(TokenType::Number, "+3")]), 1);
    assert_eq!(an_plus_b_of(&[(TokenType::Number, "3.5")]), 0);
}

#[test]
fn an_plus_b_dimension_then_signed_number() {
    assert_eq!(an_plus_b_of(&[(TokenType::Dimension, "2n"), (TokenType::Number, "+1")]), 2);
}

#[test]
fn an_plus_b_with_whitespace_and_sign() {
    let list = [
        (TokenType::Dimension, "2n"),
        (TokenType::WhiteSpace, " "),
        (TokenType::Delim, "+"),
        (TokenType::WhiteSpace, " "),
        (TokenType::Number, "1"),
    ];
    assert_eq!(an_plus_b_of(&list), 5);
}

#[test]
fn an_plus_b_sign_directly_before_number() {
    // A sign with no whitespace after it is looked at again in place of the number.
    let list = [(TokenType::Dimension, "2n"), (TokenType::Delim, "+"), (TokenType::Number, "1")];
    assert_eq!(an_plus_b_of(&list), 0);
    assert_eq!(an_plus_b_of(&[(TokenType::Dimension, "2n"), (TokenType::WhiteSpace, " "), (TokenType::Number, "+1")]), 3);
}

#[test]
fn an_plus_b_lone_n() {
    assert_eq!(an_plus_b_of(&[(TokenType::Ident, "n")]), 1);
    assert_eq!(an_plus_b_of(&[(TokenType::Ident, "N")]), 1);
}

#[test]
fn an_plus_b_dash_forms() {
    assert_eq!(an_plus_b_of(&[(TokenType::Ident, "-n-3")]), 1);
    assert_eq!(an_plus_b_of(&[(TokenType::Ident, "-n-"), (TokenType::WhiteSpace, " "), (TokenType::Number, "3")]), 3);
    assert_eq!(an_plus_b_of(&[(TokenType::Ident, "-n-"), (TokenType::WhiteSpace, " "), (TokenType::Number, "+3")]), 0);
    // Without whitespace the integer is looked for in the first token itself.
    assert_eq!(an_plus_b_of(&[(TokenType::Ident, "-n-"), (TokenType::Number, "3")]), 0);
    assert_eq!(an_plus_b_of(&[(TokenType::Ident, "-x")]), 0);
}

#[test]
fn an_plus_b_rejects_other_idents() {
    assert_eq!(an_plus_b_of(&[(TokenType::Ident, "odd")]), 0);
    assert_eq!(an_plus_b_of(&[(TokenType::Comma, ",")]), 0);
}

#[test]
fn urange_single_code_point() {
    assert_eq!(urange_of(&[(TokenType::Ident, "U"), (TokenType::Number, "+26")]), 2);
}

#[test]
fn urange_range_of_two_numbers() {
    assert_eq!(urange_of(&[(TokenType::Ident, "u"), (TokenType::Number, "+0"), (TokenType::Dimension, "-7F")]), 3);
}

#[test]
fn urange_with_question_marks() {
    let list = [
        (TokenType::Ident, "U"),
        (TokenType::Number, "+4"),
        (TokenType::Delim, "?"),
        (TokenType::Delim, "?"),
    ];
    assert_eq!(urange_of(&list), 4);
    assert_eq!(urange_of(&[(TokenType::Ident, "u"), (TokenType::Delim, "+"), (TokenType::Delim, "?")]), 3);
}

#[test]
fn urange_plus_ident() {
    assert_eq!(urange_of(&[(TokenType::Ident, "u"), (TokenType::Delim, "+"), (TokenType::Ident, "abc")]), 3);
}

#[test]
fn urange_rejections() {
    assert_eq!(urange_of(&[(TokenType::Ident, "x"), (TokenType::Number, "+1")]), 0);
    assert_eq!(urange_of(&[(TokenType::Ident, "u"), (TokenType::Number, "+1234567")]), 0);
    assert_eq!(urange_of(&[(TokenType::Ident, "u")]), 0);
    assert_eq!(urange(None, &[]), 0);
}

#[test]
fn pattern_lexer_has_no_tokens() {
    let mut lexer = Lexer::new();
    lexer.initialize_patterns();
    assert_eq!(lexer.next_token(), None);
    assert_eq!(lexer.next_token(), None);
}

#[test]
fn urange_refuses_question_marks_after_a_dash() {
    let list = [
        (TokenType::Ident, "u"),
        (TokenType::Delim, "+"),
        (TokenType::Ident, "a-b"),
        (TokenType::Delim, "?"),
    ];
    assert_eq!(urange_of(&list), 0);
    assert_eq!(urange_of(&[(TokenType::Ident, "u"), (TokenType::Delim, "+"), (TokenType::Ident, "a-b")]), 3);
}
