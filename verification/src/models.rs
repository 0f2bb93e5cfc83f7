//! The data model: cards, decks, review state and the learning session.

pub mod deck;
pub mod deck_set;
pub mod due_cards;
pub mod flashcard;
pub mod learning_card;
pub mod learning_session;
pub mod review_data;
pub mod session_laws;
pub mod sm2;

pub use deck::Deck;
pub use deck_set::DeckSet;
pub use flashcard::Flashcard;
pub use learning_card::LearningCard;
pub use learning_session::LearningSession;
pub use review_data::ReviewData;
