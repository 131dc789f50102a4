//! Matching of CSS value microsyntaxes over a token sequence.
pub mod generic_an_plus_b;
pub mod generic_urange;
pub mod lexer;
pub mod tokenizer;
