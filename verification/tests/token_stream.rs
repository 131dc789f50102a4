use csstree::tokenizer::token_stream::TokenStream;
use csstree::tokenizer::tokenize;
use csstree::tokenizer::types::{
    DELIM, EOF, IDENT, LEFT_CURLY_BRACKET, LEFT_PARENTHESIS, LEFT_SQUARE_BRACKET, RIGHT_PARENTHESIS,
    RIGHT_SQUARE_BRACKET, SEMICOLON, WHITE_SPACE,
};

fn stream_of(source: &str) -> TokenStream {
    TokenStream::new(source, &tokenize(source))
}

#[test]
fn stream_starts_on_first_token() {
    let stream = stream_of("(a)");
    assert_eq!(stream.get_token_type(0), LEFT_PARENTHESIS);
    assert_eq!(stream.get_token_type(1), DELIM);
    assert_eq!(stream.get_token_type(2), RIGHT_PARENTHESIS);
    assert_eq!(stream.get_token_start(0), 0);
    assert_eq!(stream.get_token_start(1), 1);
    assert_eq!(stream.get_token_start(2), 2);
    assert_eq!(stream.get_token_start(5), 3);
    assert_eq!(stream.get_token_end(0), 1);
    assert_eq!(stream.get_token_end(1), 2);
}

#[test]
fn stream_lookups_from_cursor() {
    let stream = stream_of("(a)");
    assert_eq!(stream.lookup_type(0), LEFT_PARENTHESIS);
    assert_eq!(stream.lookup_type(1), DELIM);
    assert_eq!(stream.lookup_type(5), EOF);
    assert_eq!(stream.lookup_offset(1), 1);
    assert!(stream.lookup_value(1, "a"));
    assert!(!stream.lookup_value(1, "b"));
    let upper = stream_of("(A)");
    assert!(upper.lookup_value(1, "a"));
}

#[test]
fn stream_moves_with_next_skip_and_reset() {
    let mut stream = stream_of("(a)");
    stream.next();
    assert_eq!(stream.get_token_type(1), DELIM);
    assert!(stream.is_delim(b'a', 0));
    assert!(!stream.is_delim(b'b', 0));
    assert_eq!(stream.substr_to_cursor(0), "(");
    stream.skip(5);
    assert_eq!(stream.get_token_type(3), EOF);
    stream.reset();
    stream.next();
    assert_eq!(stream.get_token_type(0), LEFT_PARENTHESIS);
}

#[test]
fn skip_lands_where_repeated_next_lands() {
    let source = "a b (c) d";
    for n in 1..10 {
        let mut skipped = stream_of(source);
        let mut stepped = stream_of(source);
        skipped.skip(n);
        for _ in 0..n {
            stepped.next();
        }
        for k in -1..12 {
            assert_eq!(skipped.get_token_type(k), stepped.get_token_type(k));
            assert_eq!(skipped.get_token_start(k), stepped.get_token_start(k));
        }
    }
}

#[test]
fn block_pairs_point_at_each_other() {
    let stream = stream_of("(a)");
    assert_eq!(stream.get_block_token_pair_index(0), 2);
    assert_eq!(stream.get_block_token_pair_index(2), 0);
    assert_eq!(stream.get_block_token_pair_index(1), -1);
    assert!(stream.is_balance_edge(3));
    assert!(!stream.is_balance_edge(2));
}

#[test]
fn nested_block_pairs_are_symmetric() {
    let stream = stream_of("((a) (b))");
    for k in 0..9 {
        let p = stream.get_block_token_pair_index(k);
        if p >= 0 {
            assert_eq!(stream.get_block_token_pair_index(p), k);
        }
    }
    assert_eq!(stream.get_block_token_pair_index(0), 8);
    assert_eq!(stream.get_block_token_pair_index(1), 3);
    assert_eq!(stream.get_block_token_pair_index(5), 7);
}

#[test]
fn block_opener_and_closer_types() {
    assert!(TokenStream::is_block_opener_token_type(LEFT_PARENTHESIS));
    assert!(!TokenStream::is_block_opener_token_type(RIGHT_PARENTHESIS));
    assert!(TokenStream::is_block_closer_token_type(RIGHT_PARENTHESIS));
    assert!(!TokenStream::is_block_closer_token_type(DELIM));
}

#[test]
fn dump_lists_tokens_with_balances() {
    let stream = stream_of("(a)");
    let dump = stream.dump();
    assert_eq!(dump.len(), 3);
    assert_eq!((dump[0].idx, dump[0].kind, dump[0].chunk.as_str(), dump[0].balance), (0, LEFT_PARENTHESIS, "a", 2));
    assert_eq!((dump[1].idx, dump[1].kind, dump[1].chunk.as_str(), dump[1].balance), (1, DELIM, ")", 2));
    assert_eq!((dump[2].idx, dump[2].kind, dump[2].chunk.as_str(), dump[2].balance), (2, RIGHT_PARENTHESIS, "", 0));
}

#[test]
fn skip_sc_and_lookup_non_sc() {
    let mut stream = stream_of(" a");
    stream.skip_sc();
    assert_eq!(stream.get_token_type(1), DELIM);
    let stream = stream_of("a  b");
    assert_eq!(stream.lookup_type_non_sc(1), DELIM);
    assert_eq!(stream.lookup_type_non_sc(2), EOF);
}

#[test]
fn skip_until_balanced_jumps_over_blocks() {
    let mut stream = stream_of("(a b) c");
    stream.skip_until_balanced(0, |_code: u32| 0u8);
    assert_eq!(stream.get_token_type(7), EOF);
    let mut stream = stream_of("(a b) c");
    stream.skip_until_balanced(0, |code: u32| if code == ' ' as u32 { 1u8 } else { 0u8 });
    assert_eq!(stream.get_token_type(5), WHITE_SPACE);
    assert_eq!(stream.get_token_start(5), 5);
}

#[test]
fn set_source_replaces_tokens() {
    let mut stream = stream_of("(a)");
    stream.set_source("b", &tokenize("b"));
    assert_eq!(stream.get_token_type(0), DELIM);
    assert_eq!(stream.lookup_type(1), EOF);
}

#[test]
fn balance_table_over_given_tokens() {
    let tokens = [
        (IDENT, 0, 1),
        (LEFT_PARENTHESIS, 1, 2),
        (LEFT_SQUARE_BRACKET, 2, 3),
        (IDENT, 3, 4),
        (IDENT, 4, 5),
        (RIGHT_SQUARE_BRACKET, 5, 6),
        (IDENT, 6, 7),
        (IDENT, 7, 8),
        (RIGHT_PARENTHESIS, 8, 9),
        (LEFT_CURLY_BRACKET, 9, 10),
    ];
    let stream = TokenStream::new("a([bc]de){", &tokens);
    let balances: Vec<isize> = stream.dump().iter().map(|t| t.balance).collect();
    assert_eq!(balances, vec![10, 8, 5, 5, 5, 2, 8, 8, 1, 10]);
    assert_eq!(stream.get_block_token_pair_index(1), 8);
    assert_eq!(stream.get_block_token_pair_index(2), 5);
    assert_eq!(stream.get_block_token_pair_index(5), 2);
    assert_eq!(stream.get_block_token_pair_index(9), -1);
    for k in 0..10 {
        assert_eq!(stream.get_token_type(k), tokens[k as usize].0);
        assert_eq!(stream.get_token_end(k), tokens[k as usize].2 as isize);
    }
    assert_eq!(stream.get_token_type(10), EOF);
    assert_eq!(stream.get_token_end(10), 10);
}

fn semicolon_tokens() -> Vec<(u8, usize, usize)> {
    vec![
        (IDENT, 0, 1),
        (LEFT_PARENTHESIS, 1, 2),
        (SEMICOLON, 2, 3),
        (RIGHT_PARENTHESIS, 3, 4),
        (SEMICOLON, 4, 5),
        (IDENT, 5, 6),
    ]
}

#[test]
fn skip_until_balanced_skips_a_semicolon_inside_a_block() {
    let mut stream = TokenStream::new("a(;);b", &semicolon_tokens());
    stream.skip_until_balanced(0, |code: u32| if code == 0x3B { 1u8 } else { 0u8 });
    assert_eq!(stream.get_token_type(4), SEMICOLON);
    assert_eq!(stream.get_token_start(4), 4);
    assert_eq!(stream.get_token_end(4), 5);
    assert_eq!(stream.lookup_type(1), IDENT);
}

#[test]
fn pair_indexes_over_given_tokens() {
    let stream = TokenStream::new("a(;);b", &semicolon_tokens());
    assert_eq!(stream.get_block_token_pair_index(1), 3);
    assert_eq!(stream.get_block_token_pair_index(3), 1);
    assert_eq!(stream.get_block_token_pair_index(4), -1);
}

#[test]
fn stream_over_no_tokens_is_at_end() {
    let stream = TokenStream::new("", &[]);
    assert_eq!(stream.get_token_type(0), EOF);
    assert_eq!(stream.lookup_type(0), EOF);
}

#[test]
fn stream_counts_bytes() {
    let mut stream = TokenStream::new("\u{e9}", &[(DELIM, 0, 1)]);
    assert_eq!(stream.get_token_end(1), 2);
    assert_eq!(stream.get_token_start(1), 2);
    stream.next();
    assert_eq!(stream.get_token_type(1), EOF);
    assert_eq!(stream.get_token_start(1), 2);
    assert_eq!(stream.get_token_end(1), 2);
}

#[test]
fn stream_over_tokenize_of_non_ascii_text() {
    let source = "a\u{e9}";
    let tokens = tokenize(source);
    assert_eq!(tokens, vec![(DELIM, 0, 1), (DELIM, 1, 2), (DELIM, 2, 3)]);
    let stream = TokenStream::new(source, &tokens);
    assert_eq!(stream.get_token_end(2), 3);
    assert_eq!(stream.get_token_end(3), 3);
    assert_eq!(stream.get_token_type(3), EOF);
}

#[test]
fn dump_chunks_are_byte_ranges() {
    let stream = TokenStream::new("a\u{e9}", &[(DELIM, 0, 1), (DELIM, 1, 3)]);
    let dump = stream.dump();
    assert_eq!(dump.len(), 2);
    assert_eq!(dump[0].chunk, "\u{e9}");
    assert_eq!(dump[1].chunk, "");
}

#[test]
fn stream_reads_bytes_at_token_starts() {
    let stream = TokenStream::new("\u{e9}", &[(DELIM, 0, 2)]);
    assert!(stream.is_delim(0xC3, 0));
    let mut stream = TokenStream::new("\u{e9}", &[(DELIM, 0, 2)]);
    stream.skip_until_balanced(0, |code: u32| if code == 0xC3 { 2u8 } else { 0u8 });
    assert_eq!(stream.get_token_type(1), EOF);
}
