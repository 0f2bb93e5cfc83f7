//! A deck is a named list of flashcards.

use vstd::prelude::*;
use crate::models::flashcard::Flashcard;

verus! {

/// A named, ordered collection of flashcards.
pub struct Deck {
    pub name: String,
    pub flashcards: Vec<Flashcard>,
}

impl Clone for Deck {
    fn clone(&self) -> (copy: Self)
        ensures
            copy.name == self.name,
            copy.flashcards@ == self.flashcards@,
    {
        let mut flashcards: Vec<Flashcard> = Vec::new();
        let mut i: usize = 0;
        while i < self.flashcards.len()
            invariant
                i <= self.flashcards@.len(),
                flashcards@ == self.flashcards@.take(i as int),
            decreases self.flashcards@.len() - i,
        {
            flashcards.push(self.flashcards[i].clone());
            assert(self.flashcards@.take(i + 1) =~= self.flashcards@.take(i as int).push(
                self.flashcards@[i as int],
            ));
            i += 1;
        }
        assert(self.flashcards@.take(self.flashcards@.len() as int) =~= self.flashcards@);
        Deck { name: self.name.clone(), flashcards }
    }
}

impl Default for Deck {
    /// An empty deck under the name "My Deck".
    fn default() -> (deck: Self)
        ensures
            deck.name@ == "My Deck"@,
            deck.flashcards@.len() == 0,
    {
        Self { name: "My Deck".to_owned(), flashcards: Vec::new() }
    }
}

impl Deck {
    /// Whether a card of the deck has the given term.
    pub open spec fn has_term(self, term: Seq<char>) -> bool {
        exists|i: int| 0 <= i < self.flashcards@.len() && (#[trigger] self.flashcards@[i]).term@
            == term
    }

    /// Tests whether a card of the deck has the given term.
    pub fn contains_term(&self, term: &String) -> (found: bool)
        ensures
            found == self.has_term(term@),
    {
        let mut i: usize = 0;
        while i < self.flashcards.len()
            invariant
                i <= self.flashcards@.len(),
                forall|j: int| 0 <= j < i ==> (#[trigger] self.flashcards@[j]).term@ != term@,
            decreases self.flashcards@.len() - i,
        {
            if self.flashcards[i].term == *term {
                return true;
            }
            i += 1;
        }
        false
    }

    /// Adds a card at the end of the deck, unless the deck has a card with
    /// the same term already: a term occurs once in a deck, and adding it a
    /// second time changes nothing.
    pub fn add_flashcard(&mut self, flashcard: Flashcard) -> (added: bool)
        ensures
            added == !old(self).has_term(flashcard.term@),
            final(self).name == old(self).name,
            final(self).flashcards@ == if added {
                old(self).flashcards@.push(flashcard)
            } else {
                old(self).flashcards@
            },
    {
        if self.contains_term(&flashcard.term) {
            false
        } else {
            self.flashcards.push(flashcard);
            true
        }
    }
}

} // verus!
