//! Configuration of the parser.
pub mod parser;
