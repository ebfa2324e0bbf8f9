use vstd::prelude::*;

use crate::deck::{
    Deck, DeckModel, deck_refs_view, deck_view, decks_view, insert_in_vec, lemma_decks_view_push,
    note_in_vec, remove_deck_in_vec, spec_decks_all_subdecks, spec_find_in, spec_insert_in,
    spec_note_in, spec_remove_deck_in, all_subdecks_in, deck_refs_of, find_in_decks,
    lemma_deck_refs_view_len, lemma_decks_view_len,
};
use crate::codec::{parse_collection, ser_collection, serialize_collection, sp_collection};
use crate::ids::fresh_id;
use crate::textutil::{chars_to_string, string_to_chars};
use crate::note::Note;

verus! {

/// Mathematical value of a `Collection`: its id and the models of its
/// top-level decks, in display order.
#[verifier::ext_equal]
pub struct CollectionModel {
    pub id: u128,
    pub decks: Seq<DeckModel>,
}

/// The root aggregate owning all top-level decks.
#[derive(Debug, PartialEq, Eq)]
pub struct Collection {
    pub uuid: u128,
    pub decks: Vec<Deck>,
}

impl View for Collection {
    type V = CollectionModel;

    open spec fn view(&self) -> CollectionModel {
        CollectionModel { id: self.uuid, decks: decks_view(self.decks@) }
    }
}

/// Adding a deck addressed to a parent id: the collection's own id means
/// the top level, where the deck is appended unchanged; any other id
/// addresses the first deck carrying it, which receives the deck as a
/// child; a mutation addressed to an id found nowhere is a silent no-op.
pub open spec fn spec_add_deck_to(c: CollectionModel, uuid: u128, d: DeckModel) -> CollectionModel {
    if uuid == c.id {
        CollectionModel { decks: c.decks.push(d), ..c }
    } else {
        match spec_insert_in(c.decks, uuid, d) {
            Some(s2) => CollectionModel { decks: s2, ..c },
            None => c,
        }
    }
}

impl Collection {
    /// A new empty collection with an arbitrary fresh id.
    pub fn new() -> (r: Self)
        ensures
            r@.decks.len() == 0,
    {
        let c = Collection { decks: Vec::new(), uuid: fresh_id() };
        proof {
            assert(c@.decks =~= Seq::<DeckModel>::empty());
        }
        c
    }

    /// Appends a deck to the top-level list.
    pub fn add_deck(&mut self, deck: Deck)
        ensures
            final(self)@ == (CollectionModel {
                decks: old(self)@.decks.push(deck@),
                ..old(self)@
            }),
    {
        proof {
            lemma_decks_view_push(self.decks@, deck);
        }
        self.decks.push(deck);
    }

    /// Adds a deck at top level when the address is the collection's own
    /// id, else under the first deck with the given id; an id found
    /// nowhere is a silent no-op and the deck is dropped.
    pub fn add_deck_to(&mut self, uuid: u128, deck: Deck)
        ensures
            final(self)@ == spec_add_deck_to(old(self)@, uuid, deck@),
    {
        if uuid == self.uuid {
            self.add_deck(deck);
        } else {
            let r = insert_in_vec(&mut self.decks, uuid, deck);
            match r {
                None => {},
                Some(_) => {},
            }
        }
    }

    /// Adds a note to the first deck with the given id; reports whether
    /// any deck had it. A missing id leaves the collection unchanged.
    pub fn add_note_to(&mut self, deck_id: u128, note: Note) -> (added: bool)
        ensures
            match spec_note_in(old(self)@.decks, deck_id, note@) {
                Some(s2) => added && final(self)@ == (CollectionModel {
                    decks: s2,
                    ..old(self)@
                }),
                None => !added && final(self)@ == old(self)@,
            },
    {
        let r = note_in_vec(&mut self.decks, deck_id, note);
        r.is_none()
    }

    /// Removes the first deck with the given id, with its whole subtree.
    /// A missing id is a silent no-op.
    pub fn remove_deck(&mut self, uuid: u128)
        ensures
            final(self)@ == (CollectionModel {
                decks: spec_remove_deck_in(old(self)@.decks, uuid),
                ..old(self)@
            }),
    {
        remove_deck_in_vec(&mut self.decks, uuid);
    }

    /// The first deck with the given id, searching each top-level tree
    /// depth first.
    pub fn find_deck(&self, uuid: u128) -> (r: Option<&Deck>)
        ensures
            match r {
                Some(f) => spec_find_in(self@.decks, uuid) == Some(f@),
                None => spec_find_in(self@.decks, uuid) is None,
            },
    {
        proof {
            assert(decks_view(self.decks@).skip(0) =~= decks_view(self.decks@));
        }
        find_in_decks(&self.decks, 0, uuid)
    }

    pub fn get_decks(&self) -> (r: &Vec<Deck>)
        ensures
            decks_view(r@) == self@.decks,
    {
        &self.decks
    }

    /// All decks of the collection: strict descendants of each top-level
    /// deck before the top-level decks themselves.
    pub fn get_all_decks(&self) -> (r: Vec<&Deck>)
        ensures
            deck_refs_view(r@) == spec_decks_all_subdecks(self@.decks) + self@.decks,
    {
        proof {
            assert(decks_view(self.decks@).skip(0) =~= decks_view(self.decks@));
        }
        let mut out = all_subdecks_in(&self.decks, 0);
        let ghost head_seq = out@;
        let mut tail = deck_refs_of(&self.decks, 0);
        let ghost tail_seq = tail@;
        out.append(&mut tail);
        proof {
            lemma_deck_refs_view_len(out@);
            lemma_deck_refs_view_len(head_seq);
            lemma_deck_refs_view_len(tail_seq);
            assert(out@ =~= head_seq + tail_seq);
            assert(deck_refs_view(out@) =~= spec_decks_all_subdecks(self@.decks) + self@.decks);
        }
        out
    }
}

impl Collection {
    /// The collection as its persisted text document. The contract also
    /// witnesses `bounded_collection`, under which `lemma_round_trip`
    /// gives `sp_collection(r@) == Some(self@)`.
    pub fn to_text(&self) -> (r: String)
        ensures
            r@ == ser_collection(self@),
            crate::codec::bounded_collection(self@),
    {
        let cs = serialize_collection(self);
        chars_to_string(&cs)
    }

    /// Reads a persisted document back; `None` when the text is not a
    /// well-formed document.
    pub fn from_text(s: &str) -> (r: Option<Collection>)
        ensures
            match r {
                Some(c) => sp_collection(s@) == Some(c@),
                None => sp_collection(s@) is None,
            },
    {
        let cs = string_to_chars(s);
        parse_collection(&cs)
    }

    /// Parse-or-default: a document that does not parse (a missing or
    /// damaged file read as text) yields a fresh empty collection with an
    /// arbitrary id.
    pub fn load_from_text(s: &str) -> (r: Collection)
        ensures
            match sp_collection(s@) {
                Some(m) => r@ == m,
                None => r@.decks.len() == 0,
            },
    {
        match Self::from_text(s) {
            Some(c) => c,
            None => Collection::new(),
        }
    }
}

impl Default for Collection {
    fn default() -> (r: Self)
        ensures
            r@.decks.len() == 0,
    {
        Self::new()
    }
}

} // verus!
