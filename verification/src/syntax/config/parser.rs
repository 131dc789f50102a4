//! What the parser is configured with: the token type each parse context starts
//! from, and the tests that the `supports` and `container` features apply.
use vstd::prelude::*;

verus! {

/// The parser's configuration.
pub struct ParserConfig<S, C> {
    pub parse_context: ParseContext,
    pub features: ParserConfigFeatures<S, C>,
}

/// For each parse context, a token type code (see `tokenizer::types`).
pub struct ParseContext {
    pub default: u8,
    pub stylesheet: u8,
    pub atrule: u8,
    pub media_query_list: u8,
    pub media_query: u8,
    pub rule: u8,
    pub selector_list: u8,
    pub selector: u8,
    pub declaration_list: u8,
    pub declaration: u8,
    pub value: u8,
}

/// The features of the parser.
pub struct ParserConfigFeatures<S, C> {
    pub supports: ParserConfigSupports<S>,
    pub container: ParserConfigContainer<C>,
}

/// The test that `supports` applies to a selector.
pub struct ParserConfigSupports<S> {
    pub selector: S,
}

/// The test that `container` applies to a style.
pub struct ParserConfigContainer<C> {
    pub style: C,
}

} // verus!
