//! A flashcard together with its progress in the running session.

use vstd::prelude::*;
use std::time::SystemTime;
use crate::models::flashcard::Flashcard;

verus! {

/// `std::time::SystemTime`, a point in time as the system clock reports it,
/// declared as an opaque type: the library stores such values and hands them
/// on, and never looks inside one.
#[verifier::external_type_specification]
#[verifier::external_body]
pub struct ExSystemTime(SystemTime);

/// Reads the system clock by `SystemTime::now`. Nothing is claimed of the
/// time that comes back.
#[verifier::external_body]
fn system_clock() -> (now: SystemTime) {
    SystemTime::now()
}

/// A card of the running session.
pub struct LearningCard {
    pub flashcard: Flashcard,
    /// Whether the last grade of the card was a pass.
    pub is_learned: bool,
    /// When the card was last marked as learned, if ever.
    pub last_learned_at: Option<SystemTime>,
}

impl Clone for LearningCard {
    fn clone(&self) -> (copy: Self)
        ensures
            copy == *self,
    {
        LearningCard {
            flashcard: self.flashcard.clone(),
            is_learned: self.is_learned,
            last_learned_at: self.last_learned_at,
        }
    }
}

impl LearningCard {
    /// Wraps a flashcard that has not been learned yet.
    pub fn new(flashcard: Flashcard) -> (card: Self)
        ensures
            card == (LearningCard { flashcard, is_learned: false, last_learned_at: None }),
    {
        Self { flashcard, is_learned: false, last_learned_at: None }
    }

    /// Marks the card as learned at the given time.
    pub fn mark_as_learned_at(&mut self, at: SystemTime)
        ensures
            *final(self) == (LearningCard {
                flashcard: old(self).flashcard,
                is_learned: true,
                last_learned_at: Some(at),
            }),
    {
        self.is_learned = true;
        self.last_learned_at = Some(at);
    }

    /// Marks the card as learned now, by the system clock.
    pub fn mark_as_learned(&mut self)
        ensures
            final(self).is_learned,
            final(self).last_learned_at is Some,
            final(self).flashcard == old(self).flashcard,
    {
        let now = system_clock();
        self.mark_as_learned_at(now);
    }
}

} // verus!
