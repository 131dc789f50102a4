//! Parsers of at-rule parts.
pub mod config;

use vstd::prelude::*;

verus! {

/// The parser of the parts of an `@container` rule.
pub struct AtContainerParser {}

impl AtContainerParser {
    /// Parses the prelude of the rule; it reads and builds nothing yet.
    pub fn prelude() {
    }

    /// Parses the block of the rule; it reads and builds nothing yet.
    fn block(nested: bool) {
    }
}

} // verus!
