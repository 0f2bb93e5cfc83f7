use flashcards_app::models::deck_set::AddDeckError;
use flashcards_app::models::{Deck, DeckSet, Flashcard};

fn card(term: &str, definition: &str) -> Flashcard {
    Flashcard {
        term: term.to_string(),
        definition: definition.to_string(),
    }
}

fn polish() -> Deck {
    Deck {
        name: "Polish Vocabulary".to_string(),
        flashcards: vec![card("cześć", "hello"), card("dziękuję", "thank you")],
    }
}

#[test]
fn test_default_deck() {
    let deck = Deck::default();
    assert_eq!(deck.name, "My Deck");
    assert!(deck.flashcards.is_empty());
}

#[test]
fn test_default_deck_set_is_empty() {
    let set = DeckSet::default();
    assert!(set.decks.is_empty());
}

#[test]
fn test_deck_clone_keeps_name_and_cards() {
    let deck = polish();
    let copy = deck.clone();
    assert_eq!(copy.name, "Polish Vocabulary");
    assert_eq!(copy.flashcards.len(), 2);
    for (card, copied) in deck.flashcards.iter().zip(copy.flashcards.iter()) {
        assert_eq!(card.term, copied.term);
        assert_eq!(card.definition, copied.definition);
    }
}

#[test]
fn test_add_flashcard_ignores_a_term_that_is_there() {
    let mut deck = polish();
    assert!(deck.contains_term(&"cześć".to_string()));
    assert!(!deck.contains_term(&"proszę".to_string()));
    assert!(!deck.contains_term(&"czesc".to_string()));

    assert!(deck.add_flashcard(card("proszę", "please")));
    assert_eq!(deck.flashcards.len(), 3);
    assert_eq!(deck.flashcards[2].term, "proszę");
    assert_eq!(deck.flashcards[2].definition, "please");

    assert!(!deck.add_flashcard(card("cześć", "hi")));
    assert_eq!(deck.flashcards.len(), 3);
    assert_eq!(deck.flashcards[0].definition, "hello");
    assert!(!deck.add_flashcard(card("proszę", "please")));
    assert_eq!(deck.flashcards.len(), 3);
    assert_eq!(deck.name, "Polish Vocabulary");
}

#[test]
fn test_add_deck_refuses_a_name_that_is_taken() {
    let mut set = DeckSet::default();
    assert!(!set.contains_deck(&"Polish Vocabulary".to_string()));
    assert_eq!(set.add_deck(polish()), Ok(()));
    assert!(set.contains_deck(&"Polish Vocabulary".to_string()));
    assert_eq!(set.add_deck(Deck::default()), Ok(()));
    assert_eq!(set.decks.len(), 2);
    assert_eq!(set.decks[0].name, "Polish Vocabulary");
    assert_eq!(set.decks[1].name, "My Deck");

    let twin = Deck {
        name: "Polish Vocabulary".to_string(),
        flashcards: vec![card("tak", "yes")],
    };
    assert_eq!(set.add_deck(twin), Err(AddDeckError::DuplicateName));
    assert_eq!(set.decks.len(), 2);
    assert_eq!(set.decks[0].flashcards.len(), 2);
    assert_eq!(set.decks[0].flashcards[0].term, "cześć");
}

#[test]
fn test_deck_set_clone() {
    let mut set = DeckSet::default();
    set.add_deck(polish()).unwrap();
    set.add_deck(Deck::default()).unwrap();
    let copy = set.clone();
    assert_eq!(copy.decks.len(), 2);
    assert_eq!(copy.decks[0].name, "Polish Vocabulary");
    assert_eq!(copy.decks[0].flashcards.len(), 2);
    assert_eq!(copy.decks[0].flashcards[1].term, "dziękuję");
    assert_eq!(copy.decks[1].name, "My Deck");
}
