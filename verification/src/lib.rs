//! A CSS tokenizer and the building blocks of a CSS parser: code point
//! classification, token scanning, a token stream with block balancing,
//! offset-to-location mapping and the `An+B` / `<urange>` microsyntaxes.
pub mod tokenizer;
pub mod lexer;
pub mod utils;
pub mod parser;
pub mod syntax;
pub mod walker;
