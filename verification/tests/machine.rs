use tanki::action::{Action, Screen};
use tanki::collection::Collection;
use tanki::deck_panel::{update_deck_panel_note_insert, InsertNoteState};
use tanki::deck::Deck;
use tanki::home_screen::{HomeScreen, Mode};
use tanki::note::NoteType;
use tanki::practice_screen::{Mode as PracticeMode, PracticeScreen};

fn type_text(hs: &mut HomeScreen, col: &mut Collection, text: &str) {
    for c in text.chars() {
        let action = if c == ' ' { Action::Space } else { Action::Char(c) };
        assert_eq!(hs.update(col, action), None);
    }
}

#[test]
fn end_to_end_create_and_practice() {
    let mut col = Collection::new();
    let mut hs = HomeScreen::new();

    // add the root deck "Spanish"
    assert_eq!(hs.update(&mut col, Action::Char('a')), None);
    assert!(matches!(hs.mode, Mode::InsertDeck(_, _)));
    type_text(&mut hs, &mut col, "Spanish");
    assert_eq!(hs.update(&mut col, Action::Enter), Some(Action::Save));
    assert_eq!(col.decks.len(), 1);
    assert_eq!(col.decks[0].name, "Spanish");

    // select "Spanish" and add the subdeck "Verbs" under it
    assert_eq!(hs.update(&mut col, Action::Down), None);
    assert_eq!(hs.selected, Some(0));
    assert_eq!(hs.update(&mut col, Action::Char('s')), None);
    type_text(&mut hs, &mut col, "Verbs");
    assert_eq!(hs.update(&mut col, Action::Enter), Some(Action::Save));
    assert_eq!(col.decks[0].subdecks.len(), 1);
    assert_eq!(col.decks[0].subdecks[0].name, "Verbs");

    // move down to the now-visible "Verbs" row and enter a note
    assert_eq!(hs.update(&mut col, Action::Down), None);
    assert_eq!(hs.selected, Some(1));
    assert_eq!(hs.update(&mut col, Action::Char('n')), None);
    assert!(matches!(hs.mode, Mode::InsertNote(_)));
    type_text(&mut hs, &mut col, "hablar");
    // first confirm moves the focus to the empty back field
    assert_eq!(hs.update(&mut col, Action::Enter), None);
    type_text(&mut hs, &mut col, "to speak");
    assert_eq!(hs.update(&mut col, Action::Enter), Some(Action::Save));

    let verbs = &col.decks[0].subdecks[0];
    assert_eq!(verbs.notes.len(), 1);
    let cards = verbs.get_cards();
    assert_eq!(cards.len(), 1);
    assert_eq!(cards[0].front, "hablar");
    assert_eq!(cards[0].back, "to speak");

    // entering practice on "Verbs"
    let verbs_id = verbs.uuid;
    assert_eq!(
        hs.update(&mut col, Action::Enter),
        Some(Action::Screen(Screen::Practice(verbs_id)))
    );

    let mut practice = PracticeScreen::default();
    let deck = col.find_deck(verbs_id).unwrap();
    assert_eq!(practice.update(deck, Action::Screen(Screen::Practice(verbs_id))), None);
    assert_eq!(practice.cnt, 0);
    assert_eq!(practice.cards.len(), 1);
    assert!(matches!(practice.mode, PracticeMode::Front));
    assert_eq!(practice.current_card().unwrap().front, "hablar");

    // flip reveals the back; flipping past the last card completes the run
    assert_eq!(practice.update(deck, Action::Space), None);
    assert!(matches!(practice.mode, PracticeMode::Back));
    assert_eq!(practice.current_card().unwrap().back, "to speak");
    assert_eq!(practice.update(deck, Action::Space), None);
    assert!(matches!(practice.mode, PracticeMode::Complete));

    // restart reloads the queue from the same deck
    assert_eq!(practice.update(deck, Action::Char('r')), None);
    assert!(matches!(practice.mode, PracticeMode::Front));
    assert_eq!(practice.cnt, 0);

    // close returns to the collection; quit is terminal
    assert_eq!(practice.update(deck, Action::Char('c')), Some(Action::Screen(Screen::Home)));
    assert_eq!(practice.update(deck, Action::Char('q')), Some(Action::Quit));
}

#[test]
fn empty_name_commit_is_discarded() {
    let mut col = Collection::new();
    let mut hs = HomeScreen::new();
    assert_eq!(hs.update(&mut col, Action::Char('a')), None);
    assert_eq!(hs.update(&mut col, Action::Enter), None);
    assert!(col.decks.is_empty());
    assert!(matches!(hs.mode, Mode::Normal(_)));
}

#[test]
fn cancel_discards_the_entry() {
    let mut col = Collection::new();
    let mut hs = HomeScreen::new();
    assert_eq!(hs.update(&mut col, Action::Char('a')), None);
    type_text(&mut hs, &mut col, "Dropped");
    assert_eq!(hs.update(&mut col, Action::Esc), None);
    assert!(col.decks.is_empty());
}

#[test]
fn toggle_expand_flips_membership() {
    let mut col = Collection::new();
    let mut hs = HomeScreen::new();
    assert_eq!(hs.update(&mut col, Action::Char('a')), None);
    type_text(&mut hs, &mut col, "A");
    assert_eq!(hs.update(&mut col, Action::Enter), Some(Action::Save));
    let id = col.decks[0].uuid;

    assert_eq!(hs.update(&mut col, Action::Down), None);
    assert!(!hs.expanded.contains(id));
    assert_eq!(hs.update(&mut col, Action::Space), None);
    assert!(hs.expanded.contains(id));
    assert_eq!(hs.update(&mut col, Action::Space), None);
    assert!(!hs.expanded.contains(id));
}

#[test]
fn delete_removes_the_selected_subtree() {
    let mut col = Collection::new();
    let mut hs = HomeScreen::new();
    for name in ["One", "Two"] {
        assert_eq!(hs.update(&mut col, Action::Char('a')), None);
        type_text(&mut hs, &mut col, name);
        assert_eq!(hs.update(&mut col, Action::Enter), Some(Action::Save));
    }
    assert_eq!(col.decks.len(), 2);

    assert_eq!(hs.update(&mut col, Action::Down), None);
    assert_eq!(hs.update(&mut col, Action::Char('D')), None);
    assert_eq!(col.decks.len(), 1);
    assert_eq!(col.decks[0].name, "Two");
}

#[test]
fn quit_is_forwarded_from_browse_mode() {
    let mut col = Collection::new();
    let mut hs = HomeScreen::new();
    assert_eq!(hs.update(&mut col, Action::Char('q')), Some(Action::Quit));
}

#[test]
fn note_entry_cancel_requests_no_persist() {
    let mut col = Collection::new();
    let mut hs = HomeScreen::new();
    assert_eq!(hs.update(&mut col, Action::Char('a')), None);
    type_text(&mut hs, &mut col, "A");
    assert_eq!(hs.update(&mut col, Action::Enter), Some(Action::Save));
    assert_eq!(hs.update(&mut col, Action::Down), None);
    assert_eq!(hs.update(&mut col, Action::Char('n')), None);
    type_text(&mut hs, &mut col, "half a front");
    // cancelling discards the buffers: no note, and no persist request
    assert_eq!(hs.update(&mut col, Action::Esc), None);
    assert!(matches!(hs.mode, Mode::Normal(_)));
    assert_eq!(col.decks[0].notes.len(), 0);
}

#[test]
fn note_entry_edits_both_fields() {
    let mut deck = Deck::new("D".to_string());
    let mut st = InsertNoteState::new();
    for c in ['a', 'b'] {
        st = update_deck_panel_note_insert(Action::Char(c), st, &mut deck);
    }
    // Tab flips to the back field, backspace edits it
    st = update_deck_panel_note_insert(Action::Tab, st, &mut deck);
    st = update_deck_panel_note_insert(Action::Char('x'), st, &mut deck);
    st = update_deck_panel_note_insert(Action::Char('y'), st, &mut deck);
    st = update_deck_panel_note_insert(Action::Backspace, st, &mut deck);
    st = update_deck_panel_note_insert(Action::CtrlSpace, st, &mut deck);
    st = update_deck_panel_note_insert(Action::Char('z'), st, &mut deck);
    assert!(!st.completed);
    assert_eq!(deck.notes.len(), 0);

    let st = update_deck_panel_note_insert(Action::Enter, st, &mut deck);
    assert!(st.completed);
    assert_eq!(deck.notes.len(), 1);
    assert_eq!(deck.notes[0].front, "ab");
    assert_eq!(deck.notes[0].back, "x\nz");
    assert!(matches!(deck.notes[0].note_type, NoteType::Basic));
}

#[test]
fn note_entry_escape_commits_nothing() {
    let mut deck = Deck::new("D".to_string());
    let mut st = InsertNoteState::new();
    st = update_deck_panel_note_insert(Action::Char('a'), st, &mut deck);
    let st = update_deck_panel_note_insert(Action::Esc, st, &mut deck);
    assert!(st.completed);
    assert_eq!(deck.notes.len(), 0);
}

#[test]
fn practice_on_empty_deck_completes_without_cards() {
    let deck = Deck::new("Empty".to_string());
    let mut practice = PracticeScreen::default();
    assert_eq!(practice.update(&deck, Action::Char('r')), None);
    assert!(practice.current_card().is_none());
    assert_eq!(practice.update(&deck, Action::Space), None);
    assert_eq!(practice.update(&deck, Action::Space), None);
    assert!(matches!(practice.mode, PracticeMode::Complete));
}
