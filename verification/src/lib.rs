//! Spaced-repetition flashcards: SM-2 scheduling and the multi-round
//! learning session that drives it.
//!
//! The library holds the rules and performs no storage access of its own:
//! dates, due cards and the outcome of each write are handed to it as values.

pub mod clock;
pub mod decimal;
pub mod filters;
pub mod models;

pub use models::{Deck, DeckSet, Flashcard, LearningCard, LearningSession, ReviewData};
