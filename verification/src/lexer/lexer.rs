//! A token cursor with a table of named patterns.
use vstd::prelude::*;
use crate::utils::str_map::StrMap;

verus! {

#[derive(Debug)]
pub struct Lexer {
    tokens: Vec<String>,
    current_position: usize,
    patterns: StrMap<String>,
}

impl Lexer {
    /// The tokens, as text.
    pub closed spec fn token_texts(&self) -> Seq<Seq<char>> {
        self.tokens@.map_values(|t: String| t@)
    }

    /// The index of the next token to hand out.
    pub closed spec fn position(&self) -> int {
        self.current_position as int
    }

    /// The patterns by name, as text.
    pub closed spec fn pattern_map(&self) -> Map<Seq<char>, Seq<char>> {
        self.patterns.view().map_values(|p: String| p@)
    }

    /// A lexer with no tokens and no patterns.
    pub fn new() -> (r: Self)
        ensures
            r.token_texts() == Seq::<Seq<char>>::empty(),
            r.position() == 0,
            r.pattern_map() == Map::<Seq<char>, Seq<char>>::empty(),
    {
        let r = Lexer { tokens: Vec::new(), current_position: 0, patterns: StrMap::new() };
        assert(r.token_texts() =~= Seq::<Seq<char>>::empty());
        assert(r.pattern_map() =~= Map::<Seq<char>, Seq<char>>::empty());
        r
    }

    /// Registers the `identifier` and `number` patterns.
    pub fn initialize_patterns(&mut self)
        ensures
            final(self).pattern_map() == old(self).pattern_map().insert(
                "identifier"@,
                "[a-zA-Z_][a-zA-Z0-9_]*"@,
            ).insert("number"@, "\\d+"@),
            final(self).token_texts() == old(self).token_texts(),
            final(self).position() == old(self).position(),
    {
        let ghost before = self.patterns.view();
        let identifier = "identifier".to_owned();
        let identifier_pattern = "[a-zA-Z_][a-zA-Z0-9_]*".to_owned();
        self.patterns.insert(identifier, identifier_pattern);
        let number = "number".to_owned();
        let number_pattern = "\\d+".to_owned();
        self.patterns.insert(number, number_pattern);
        assert(self.pattern_map() =~= before.map_values(|p: String| p@).insert(
            "identifier"@,
            "[a-zA-Z_][a-zA-Z0-9_]*"@,
        ).insert("number"@, "\\d+"@));
    }

    /// Hands out the next token, if any, and moves past it.
    pub fn next_token(&mut self) -> (r: Option<String>)
        ensures
            final(self).token_texts() == old(self).token_texts(),
            final(self).pattern_map() == old(self).pattern_map(),
            old(self).position() < old(self).token_texts().len() ==> {
                &&& r matches Some(t) && t@ == old(self).token_texts()[old(self).position()]
                &&& final(self).position() == old(self).position() + 1
            },
            old(self).position() >= old(self).token_texts().len() ==> {
                &&& r is None
                &&& final(self).position() == old(self).position()
            },
    {
        if self.current_position < self.tokens.len() {
            let token = self.tokens[self.current_position].clone();
            self.current_position += 1;
            Some(token)
        } else {
            None
        }
    }
}

} // verus!
