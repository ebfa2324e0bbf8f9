use tanki::action::Action;
use tanki::collection::Collection;
use tanki::deck::Deck;
use tanki::home_screen::{HomeScreen, Mode, RowTarget, update_list_selection};
use tanki::idset::IdSet;
use tanki::input_state::{cursor_cell_in, InputState};
use tanki::note::{Note, NoteType};

fn leaf(name: &str, id: u128) -> Deck {
    Deck { name: name.to_string(), uuid: id, subdecks: vec![], notes: vec![], parent: None }
}

fn browser() -> HomeScreen {
    HomeScreen { selected: None, expanded: IdSet::new(), mode: Mode::Normal(None) }
}

fn count_deck_rows(hs: &HomeScreen, c: &Collection, id: u128) -> usize {
    hs.build_deck_list_items(c)
        .iter()
        .filter(|r| matches!(r.target, RowTarget::DeckItem(x) if x == id))
        .count()
}

#[test]
fn flatten_counts_visible_deck_once() {
    // A(1) > B(2) > C(3), and a second root D(4)
    let mut b = leaf("B", 2);
    let c3 = leaf("C", 3);
    b.subdecks.push(c3);
    let mut a = leaf("A", 1);
    a.subdecks.push(b);
    let col = Collection { uuid: 100, decks: vec![a, leaf("D", 4)] };

    let mut hs = browser();
    assert_eq!(count_deck_rows(&hs, &col, 3), 0);
    assert_eq!(count_deck_rows(&hs, &col, 1), 1);

    hs.expanded.insert(2);
    assert_eq!(count_deck_rows(&hs, &col, 3), 0);

    hs.expanded.insert(1);
    assert_eq!(count_deck_rows(&hs, &col, 3), 1);
    assert_eq!(count_deck_rows(&hs, &col, 2), 1);
}

#[test]
fn flatten_of_empty_collection_is_one_create_row() {
    let col = Collection { uuid: 100, decks: vec![] };
    let hs = browser();
    let rows = hs.build_deck_list_items(&col);
    assert_eq!(rows.len(), 1);
    assert_eq!(rows[0].target, RowTarget::AddToItem(100));
}

#[test]
fn flatten_row_order_and_create_rows() {
    let mut a = leaf("A", 1);
    a.subdecks.push(leaf("B", 2));
    let col = Collection { uuid: 100, decks: vec![a] };

    let mut hs = browser();
    hs.expanded.insert(1);
    let rows = hs.build_deck_list_items(&col);
    let targets: Vec<RowTarget> = rows.iter().map(|r| r.target).collect();
    assert_eq!(
        targets,
        vec![
            RowTarget::DeckItem(1),
            RowTarget::DeckItem(2),
            RowTarget::AddToItem(1),
            RowTarget::AddToItem(100),
        ]
    );
}

#[test]
fn selection_walks_with_wraparound() {
    let n = 3;
    let mut sel: Option<usize> = None;
    let expected = [0, 1, 2, 0, 1];
    for k in 0..5 {
        update_list_selection(&Action::Down, &mut sel, n);
        assert_eq!(sel, Some(expected[k]));
    }
    // one more up press from index 1 down to 0, then up wraps to the last
    let mut sel = Some(0);
    update_list_selection(&Action::Up, &mut sel, n);
    assert_eq!(sel, Some(2));
}

#[test]
fn entering_a_deck_name_selects_the_live_entry_row() {
    let mut a = leaf("A", 1);
    a.subdecks.push(leaf("B", 2));
    let col = Collection { uuid: 100, decks: vec![a] };

    let mut hs = browser();
    hs.expanded.insert(1);
    hs.mode = Mode::InsertDeck(1, tanki::input_state::InputState::new());
    let rows = hs.build_deck_list_items(&col);
    hs.select_add_item(&rows);
    // rows: A, B, create-under-A, create-at-top; the last create row wins
    assert_eq!(hs.selected, Some(3));
}

#[test]
fn selection_first_press_selects_first_row() {
    let mut sel: Option<usize> = None;
    update_list_selection(&Action::Up, &mut sel, 5);
    assert_eq!(sel, Some(0));
}

#[test]
fn card_order_follows_note_order() {
    let mut deck = Deck::new("D".to_string());
    deck.add_note(Note::new("f1".to_string(), "b1".to_string(), NoteType::Basic));
    deck.add_note(Note::new("f2".to_string(), "b2".to_string(), NoteType::BasicAndReverse));
    let cards = deck.get_cards();
    let fronts: Vec<&str> = cards.iter().map(|c| c.front.as_str()).collect();
    assert_eq!(fronts, vec!["f1", "f2", "b2"]);
}

#[test]
fn input_engine_returns_entered_text() {
    let mut b = InputState::new();
    for c in ['h', 'e', 'l', 'l', 'o'] {
        b.push(c);
    }
    assert_eq!(b.get_input(), "hello");
    assert_eq!(b.input_display(), ">> hello");
}

#[test]
fn input_engine_cursor_and_deletion() {
    let mut b = InputState::new();
    b.push('a');
    b.push('c');
    b.cursor_left();
    b.push('b');
    assert_eq!(b.get_input(), "abc");

    // deleting at offset 0 is a no-op
    let mut b = InputState::new();
    b.push('x');
    b.cursor_left();
    b.pop();
    assert_eq!(b.get_input(), "x");

    // cursor stays clamped inside [0, len]
    let mut b = InputState::new();
    b.cursor_left();
    b.cursor_right();
    b.push('y');
    b.cursor_right();
    b.cursor_right();
    b.pop();
    assert_eq!(b.get_input(), "");
}

#[test]
fn input_engine_multibyte_characters() {
    let mut b = InputState::new();
    b.push('日');
    b.push('語');
    b.cursor_left();
    b.push('本');
    assert_eq!(b.get_input(), "日本語");
    b.pop();
    assert_eq!(b.get_input(), "日語");
}

#[test]
fn cursor_cell_follows_the_offset_through_the_lines() {
    // three wrapped lines of lengths 7, 4, 4
    let lines = vec![">> aaaa".to_string(), "bbbb".to_string(), "cccc".to_string()];
    // an offset inside the first line stays on row zero
    assert_eq!(cursor_cell_in(&lines, 3, 0, 0, 10, 10), (1 + 3, 1 + 0));
    // an offset past the first line lands on the second
    assert_eq!(cursor_cell_in(&lines, 9, 0, 0, 10, 10), (1 + 2, 1 + 1));
    // an offset past the whole text sits at the end of the last line
    assert_eq!(cursor_cell_in(&lines, 15, 0, 0, 10, 10), (1 + 4, 1 + 2));
    // a tiny viewport clamps both coordinates to its far edge
    assert_eq!(cursor_cell_in(&lines, 15, 0, 0, 4, 3), (1 + 1, 1 + 0));
    // an offset viewport shifts the cell
    assert_eq!(cursor_cell_in(&lines, 15, 5, 7, 10, 10), (5 + 1 + 4, 7 + 1 + 2));
    // no lines at all put the cursor at the viewport origin
    let none: Vec<String> = vec![];
    assert_eq!(cursor_cell_in(&none, 9, 2, 2, 6, 6), (3, 3));
}

#[test]
fn wrapped_cursor_single_line() {
    let mut b = InputState::new();
    for c in ['a', 'b', 'c'] {
        b.push(c);
    }
    // ">> abc" stays on one line at width 20; the cursor sits after it
    assert_eq!(b.calculate_cursor_coordinates_wrapped(2, 3, 20, 5), (2 + 1 + 6, 3 + 1));
    // moving the cursor left moves the cell with it
    b.cursor_left();
    b.cursor_left();
    assert_eq!(b.calculate_cursor_coordinates_wrapped(2, 3, 20, 5), (2 + 1 + 4, 3 + 1));
}

#[test]
fn idset_tracks_membership() {
    let mut s = IdSet::new();
    assert!(!s.contains(7));
    s.insert(7);
    s.insert(9);
    s.insert(7);
    assert!(s.contains(7));
    assert!(s.contains(9));
    assert_eq!(s.ids.len(), 2);
    s.remove(7);
    assert!(!s.contains(7));
    assert!(s.contains(9));
    s.remove(42);
    assert!(s.contains(9));
}

#[test]
fn qualified_names_follow_the_attach_chain() {
    let mut a = Deck::new("A".to_string());
    let b = Deck::new("B".to_string());
    a.add_subdeck(b);
    assert_eq!(a.qualified_name(), "A");
    assert_eq!(a.subdecks[0].qualified_name(), "A:B");

    let b_id = a.subdecks[0].uuid;
    let mut col = Collection { uuid: 1000, decks: vec![a] };
    col.add_deck_to(b_id, Deck::new("C".to_string()));
    assert_eq!(col.decks[0].subdecks[0].subdecks[0].qualified_name(), "A:B:C");
}

#[test]
fn remove_deck_removes_whole_subtree() {
    let mut b = leaf("B", 2);
    b.subdecks.push(leaf("C", 3));
    let mut a = leaf("A", 1);
    a.subdecks.push(b);
    let mut col = Collection { uuid: 100, decks: vec![a, leaf("D", 4)] };

    col.remove_deck(2);
    assert!(col.find_deck(2).is_none());
    assert!(col.find_deck(3).is_none());
    assert!(col.find_deck(1).is_some());
    assert!(col.find_deck(4).is_some());

    // removing an absent id is a silent no-op
    col.remove_deck(999);
    assert_eq!(col.decks.len(), 2);
}

#[test]
fn add_deck_to_targets_root_or_is_a_noop() {
    let mut col = Collection { uuid: 100, decks: vec![leaf("A", 1)] };
    // the collection's own id addresses the top level
    col.add_deck_to(100, leaf("B", 2));
    assert_eq!(col.decks.len(), 2);
    assert_eq!(col.decks[1].name, "B");

    // an id found nowhere is a silent no-op
    col.add_deck_to(999, leaf("X", 9));
    assert_eq!(col.decks.len(), 2);
    assert!(col.find_deck(9).is_none());

    col.add_deck_to(1, leaf("C", 3));
    assert_eq!(col.decks.len(), 2);
    assert_eq!(col.decks[0].subdecks.len(), 1);
    assert_eq!(col.decks[0].subdecks[0].name, "C");
}

#[test]
fn add_note_to_reports_whether_a_deck_had_the_id() {
    let mut col = Collection { uuid: 100, decks: vec![leaf("A", 1)] };
    let note = Note::new("f".to_string(), "b".to_string(), NoteType::Basic);
    assert!(col.add_note_to(1, note));
    assert_eq!(col.decks[0].notes.len(), 1);

    let note = Note::new("f".to_string(), "b".to_string(), NoteType::Basic);
    assert!(!col.add_note_to(999, note));
    assert_eq!(col.decks[0].notes.len(), 1);
}

#[test]
fn get_all_decks_lists_descendants_then_roots() {
    let mut a = leaf("A", 1);
    a.subdecks.push(leaf("B", 2));
    let col = Collection { uuid: 100, decks: vec![a, leaf("D", 4)] };
    let all: Vec<u128> = col.get_all_decks().iter().map(|d| d.uuid).collect();
    assert_eq!(all, vec![2, 1, 4]);
}
