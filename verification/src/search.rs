//! The fuzzy word-search screen's result payload. The search itself ranks
//! words by edit distance inside the word store, behind the request
//! boundary; this side only carries the ranked texts.

use vstd::prelude::*;

verus! {

/// The ranked word texts a search returned.
pub struct SearchedWords {
    pub words: Vec<String>,
}

} // verus!
