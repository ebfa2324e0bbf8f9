use tanki::collection::Collection;
use tanki::deck::Deck;
use tanki::importer::{deck_from_package, note_from_blob};
use tanki::note::{Note, NoteType};
use tanki::textutil::dec_string;

fn leaf(name: &str, id: u128) -> Deck {
    Deck { name: name.to_string(), uuid: id, subdecks: vec![], notes: vec![], parent: None }
}

#[test]
fn decimal_strings_are_exact() {
    assert_eq!(dec_string(0), "0");
    assert_eq!(dec_string(10), "10");
    assert_eq!(dec_string(90125), "90125");
    assert_eq!(
        dec_string(u128::MAX),
        "340282366920938463463374607431768211455"
    );
}

#[test]
fn empty_collection_document_is_exact() {
    let col = Collection { uuid: 7, decks: vec![] };
    assert_eq!(col.to_text(), "7\n0\n");
}

#[test]
fn one_deck_document_is_exact() {
    let col = Collection { uuid: 7, decks: vec![leaf("ab", 5)] };
    assert_eq!(col.to_text(), "7\n1\n2\nab\n5\nn\n0\n0\n");
}

#[test]
fn round_trip_preserves_structure() {
    let mut verbs = leaf("Verbs", 2);
    verbs.add_note(Note::new(
        "hablar\nto talk".to_string(),
        "with\u{1f}separators and 123\n456".to_string(),
        NoteType::BasicAndReverse,
    ));
    let mut spanish = leaf("Spanish", 1);
    spanish.add_subdeck(verbs);
    let mut nihongo = leaf("日本語", 3);
    nihongo.add_note(Note::new("水".to_string(), "water".to_string(), NoteType::Basic));
    let col = Collection { uuid: 314159, decks: vec![spanish, nihongo] };

    let text = col.to_text();
    let back = Collection::from_text(&text).expect("a serialized collection parses");
    assert_eq!(back, col);
}

#[test]
fn round_trip_of_empty_and_deep_trees() {
    let col = Collection { uuid: 0, decks: vec![] };
    assert_eq!(Collection::from_text(&col.to_text()).unwrap(), col);

    let mut d = leaf("x", 9);
    for i in 0..6u128 {
        let mut outer = leaf(&format!("level{}", i), 10 + i);
        outer.subdecks.push(d);
        d = outer;
    }
    let col = Collection { uuid: u128::MAX, decks: vec![d] };
    assert_eq!(Collection::from_text(&col.to_text()).unwrap(), col);
}

#[test]
fn malformed_documents_are_rejected() {
    assert!(Collection::from_text("").is_none());
    assert!(Collection::from_text("not a document").is_none());
    assert!(Collection::from_text("7\n").is_none());
    assert!(Collection::from_text("7\n1\n").is_none());
    // a trailing remainder after a complete document is rejected too
    assert!(Collection::from_text("7\n0\nx").is_none());
    // a number too large for the id word is rejected
    assert!(Collection::from_text("340282366920938463463374607431768211456\n0\n").is_none());
}

#[test]
fn load_from_text_defaults_on_damage() {
    let fresh = Collection::load_from_text("garbage");
    assert!(fresh.decks.is_empty());

    let col = Collection { uuid: 7, decks: vec![leaf("ab", 5)] };
    let loaded = Collection::load_from_text(&col.to_text());
    assert_eq!(loaded, col);
}

#[test]
fn imported_blobs_split_on_the_unit_separator() {
    let n = note_from_blob("front side\u{1f}back side\u{1f}ignored tail");
    assert_eq!(n.front, "front side");
    assert_eq!(n.back, "back side");

    let n = note_from_blob("only front");
    assert_eq!(n.front, "only front");
    assert_eq!(n.back, "");

    let n = note_from_blob("");
    assert_eq!(n.front, "");
    assert_eq!(n.back, "");
}

#[test]
fn imported_package_becomes_one_deck_of_basic_notes() {
    let deck = deck_from_package(
        "MyPackage".to_string(),
        vec!["a\u{1f}b".to_string(), "c\u{1f}d".to_string()],
    );
    assert_eq!(deck.name, "MyPackage");
    assert_eq!(deck.subdecks.len(), 0);
    assert_eq!(deck.notes.len(), 2);
    assert_eq!(deck.notes[0].front, "a");
    assert_eq!(deck.notes[0].back, "b");
    assert_eq!(deck.notes[1].front, "c");
    assert!(matches!(deck.notes[1].note_type, NoteType::Basic));
}
