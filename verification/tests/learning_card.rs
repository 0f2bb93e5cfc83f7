use flashcards_app::models::{Flashcard, LearningCard};
use std::time::SystemTime;

fn hello() -> Flashcard {
    Flashcard {
        term: "hello".to_string(),
        definition: "cześć".to_string(),
    }
}

#[test]
fn test_new_learning_card_is_not_learned() {
    let card = LearningCard::new(hello());
    assert_eq!(card.flashcard.term, "hello");
    assert_eq!(card.flashcard.definition, "cześć");
    assert!(!card.is_learned);
    assert!(card.last_learned_at.is_none());
}

#[test]
fn test_mark_as_learned_records_the_time() {
    let before = SystemTime::now();
    let mut card = LearningCard::new(hello());
    card.mark_as_learned();
    let after = SystemTime::now();
    assert!(card.is_learned);
    let at = card.last_learned_at.unwrap();
    assert!(before <= at && at <= after);
    assert_eq!(card.flashcard.term, "hello");
    assert_eq!(card.flashcard.definition, "cześć");
}

#[test]
fn test_mark_as_learned_at_a_given_time() {
    let at = SystemTime::UNIX_EPOCH;
    let mut card = LearningCard::new(hello());
    card.mark_as_learned_at(at);
    assert!(card.is_learned);
    assert_eq!(card.last_learned_at, Some(at));
    assert_eq!(card.flashcard.term, "hello");
}

#[test]
fn test_learning_card_clone() {
    let mut card = LearningCard::new(hello());
    card.mark_as_learned();
    let copy = card.clone();
    assert_eq!(copy.flashcard.term, card.flashcard.term);
    assert_eq!(copy.flashcard.definition, card.flashcard.definition);
    assert_eq!(copy.is_learned, card.is_learned);
    assert_eq!(copy.last_learned_at, card.last_learned_at);
}
