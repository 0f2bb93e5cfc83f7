//! A flashcard is a pair of texts: a term and its definition.

use vstd::prelude::*;

verus! {

/// One card of a deck. Both texts are arbitrary Unicode strings.
#[derive(Debug)]
pub struct Flashcard {
    pub term: String,
    pub definition: String,
}

impl Clone for Flashcard {
    fn clone(&self) -> (copy: Self)
        ensures
            copy == *self,
    {
        Flashcard { term: self.term.clone(), definition: self.definition.clone() }
    }
}

} // verus!
