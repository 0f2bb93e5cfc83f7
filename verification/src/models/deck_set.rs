//! The set of all decks.

use vstd::prelude::*;
use crate::models::deck::Deck;

verus! {

/// All decks of the application, in the order in which they were added.
pub struct DeckSet {
    pub decks: Vec<Deck>,
}

/// Why a deck was not added to a set.
#[derive(Debug, PartialEq, Eq, Structural)]
pub enum AddDeckError {
    /// The set holds a deck of the same name already.
    DuplicateName,
}

impl Clone for DeckSet {
    fn clone(&self) -> (copy: Self)
        ensures
            copy.decks@.len() == self.decks@.len(),
            forall|i: int|
                0 <= i < self.decks@.len() ==> copy.decks@[i].name == self.decks@[i].name
                    && copy.decks@[i].flashcards@ == self.decks@[i].flashcards@,
    {
        let mut decks: Vec<Deck> = Vec::new();
        let mut i: usize = 0;
        while i < self.decks.len()
            invariant
                i <= self.decks@.len(),
                decks@.len() == i,
                forall|j: int|
                    0 <= j < i ==> decks@[j].name == self.decks@[j].name && decks@[j].flashcards@
                        == self.decks@[j].flashcards@,
            decreases self.decks@.len() - i,
        {
            decks.push(self.decks[i].clone());
            i += 1;
        }
        DeckSet { decks }
    }
}

impl Default for DeckSet {
    /// The set without decks.
    fn default() -> (set: Self)
        ensures
            set.decks@.len() == 0,
    {
        Self { decks: Vec::new() }
    }
}

impl DeckSet {
    /// Whether a deck of the set has the given name.
    pub open spec fn has_deck(self, name: Seq<char>) -> bool {
        exists|i: int| 0 <= i < self.decks@.len() && (#[trigger] self.decks@[i]).name@ == name
    }

    /// Tests whether a deck of the set has the given name.
    pub fn contains_deck(&self, name: &String) -> (found: bool)
        ensures
            found == self.has_deck(name@),
    {
        let mut i: usize = 0;
        while i < self.decks.len()
            invariant
                i <= self.decks@.len(),
                forall|j: int| 0 <= j < i ==> (#[trigger] self.decks@[j]).name@ != name@,
            decreases self.decks@.len() - i,
        {
            if self.decks[i].name == *name {
                return true;
            }
            i += 1;
        }
        false
    }

    /// Adds a deck at the end of the set. A deck whose name is taken is
    /// refused, and the set stays as it was.
    pub fn add_deck(&mut self, deck: Deck) -> (added: Result<(), AddDeckError>)
        ensures
            added is Err <==> old(self).has_deck(deck.name@),
            added is Err ==> added == Err::<(), AddDeckError>(AddDeckError::DuplicateName),
            final(self).decks@ == if added is Ok {
                old(self).decks@.push(deck)
            } else {
                old(self).decks@
            },
    {
        if self.contains_deck(&deck.name) {
            Err(AddDeckError::DuplicateName)
        } else {
            self.decks.push(deck);
            Ok(())
        }
    }
}

} // verus!
