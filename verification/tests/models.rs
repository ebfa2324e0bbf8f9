use tanki::collection::Collection;
use tanki::deck::Deck;
use tanki::note::{Note, NoteType};

#[test]
fn test_collection_creation() {
    let collection = Collection::new();
    assert!(collection.decks.is_empty());
}

#[test]
fn test_add_deck() {
    let mut collection = Collection::new();
    let deck = Deck::new(String::from("My Deck"));
    collection.add_deck(deck);
    assert_eq!(collection.decks.len(), 1);
}

#[test]
fn test_deck_creation() {
    let deck = Deck::new("Test Deck".to_string());

    assert_eq!(deck.name, "Test Deck");
    assert_eq!(deck.subdecks.len(), 0);
    assert_eq!(deck.notes.len(), 0);
}

#[test]
fn test_add_subdeck() {
    let mut parent_deck = Deck::new("Parent".to_string());
    let child_deck = Deck::new("Child".to_string());

    parent_deck.add_subdeck(child_deck);

    assert_eq!(parent_deck.subdecks.len(), 1);
    assert_eq!(parent_deck.subdecks[0].name, "Child");
}

#[test]
fn test_add_note() {
    let mut deck = Deck::new("Test Deck".to_string());
    let note = Note::new("Front".to_string(), "Back".to_string(), NoteType::Basic);

    deck.add_note(note);

    assert_eq!(deck.notes.len(), 1);
    assert_eq!(deck.notes[0].get_cards()[0].front, "Front");
}

#[test]
fn test_get_cards() {
    let mut deck = Deck::new("Test Deck".to_string());
    deck.add_note(Note::new("Q1".to_string(), "A1".to_string(), NoteType::Basic));
    deck.add_note(Note::new("Q2".to_string(), "A2".to_string(), NoteType::BasicAndReverse));

    let cards = deck.get_cards();

    // 1 card from Basic note + 2 cards from BasicAndReverse note
    assert_eq!(cards.len(), 3);
}

#[test]
fn test_get_all_cards() {
    let mut parent_deck = Deck::new("Parent".to_string());
    let mut child_deck = Deck::new("Child".to_string());

    parent_deck.add_note(Note::new("PQ".to_string(), "PA".to_string(), NoteType::Basic));
    child_deck.add_note(Note::new("CQ".to_string(), "CA".to_string(), NoteType::Basic));
    parent_deck.add_subdeck(child_deck);

    let all_cards = parent_deck.get_all_cards();

    assert_eq!(all_cards.len(), 2);
}

#[test]
fn test_note_creation() {
    let note = Note::new("Front text".to_string(), "Back text".to_string(), NoteType::Basic);

    assert_eq!(note.front, "Front text");
    assert_eq!(note.back, "Back text");
    matches!(note.note_type, NoteType::Basic);
}

#[test]
fn test_get_cards_basic() {
    let note = Note::new("Question".to_string(), "Answer".to_string(), NoteType::Basic);

    let cards = note.get_cards();
    assert_eq!(cards.len(), 1);
    assert_eq!(cards[0].front, "Question");
    assert_eq!(cards[0].back, "Answer");
}

#[test]
fn test_get_cards_basic_and_reverse() {
    let note = Note::new("Question".to_string(), "Answer".to_string(), NoteType::BasicAndReverse);

    let cards = note.get_cards();
    assert_eq!(cards.len(), 2);
    assert_eq!(cards[0].front, "Question");
    assert_eq!(cards[0].back, "Answer");
    assert_eq!(cards[1].front, "Answer");
    assert_eq!(cards[1].back, "Question");
}
