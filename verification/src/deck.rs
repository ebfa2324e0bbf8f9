use vstd::prelude::*;
use vstd::string::StringExecFns;

use crate::ids::fresh_id;
use crate::note::{Card, CardModel, Note, NoteModel, spec_cards};

verus! {

/// Mathematical value of a `Deck`: its name, id, children, notes and the
/// qualified name of its parent recorded when it was attached.
#[verifier::ext_equal]
pub struct DeckModel {
    pub name: Seq<char>,
    pub id: u128,
    pub subdecks: Seq<DeckModel>,
    pub notes: Seq<NoteModel>,
    pub parent: Option<Seq<char>>,
}

/// A named node of the browsable tree, owning subdecks and notes.
#[derive(Debug, PartialEq, Eq)]
pub struct Deck {
    pub name: String,
    pub uuid: u128,
    pub subdecks: Vec<Deck>,
    pub notes: Vec<Note>,
    pub parent: Option<String>,
}

/// The model of a deck.
pub open spec fn deck_view(d: Deck) -> DeckModel
    decreases d,
{
    DeckModel {
        name: d.name@,
        id: d.uuid,
        subdecks: decks_view(d.subdecks@),
        notes: d.notes.deep_view(),
        parent: match d.parent {
            Some(p) => Some(p@),
            None => None,
        },
    }
}

/// The models of a sequence of decks, in order.
pub open spec fn decks_view(s: Seq<Deck>) -> Seq<DeckModel>
    decreases s,
{
    if s.len() == 0 {
        Seq::empty()
    } else {
        seq![deck_view(s[0])] + decks_view(s.drop_first())
    }
}

impl View for Deck {
    type V = DeckModel;

    open spec fn view(&self) -> DeckModel {
        deck_view(*self)
    }
}

pub proof fn lemma_decks_view_len(s: Seq<Deck>)
    ensures
        decks_view(s).len() == s.len(),
        forall|i: int| 0 <= i < s.len() ==> #[trigger] decks_view(s)[i] == deck_view(s[i]),
    decreases s,
{
    if s.len() > 0 {
        lemma_decks_view_len(s.drop_first());
    }
}

pub proof fn lemma_decks_view_push(s: Seq<Deck>, d: Deck)
    ensures
        decks_view(s.push(d)) == decks_view(s).push(deck_view(d)),
{
    lemma_decks_view_len(s.push(d));
    lemma_decks_view_len(s);
    assert(decks_view(s.push(d)) =~= decks_view(s).push(deck_view(d)));
}

/// The qualified, path-based display name of a deck.
pub open spec fn spec_qualified_name(m: DeckModel) -> Seq<char> {
    match m.parent {
        Some(p) => p + ":"@ + m.name,
        None => m.name,
    }
}

/// The cards of a sequence of notes, in note order, sub-card order within
/// each note.
pub open spec fn spec_notes_cards(notes: Seq<NoteModel>) -> Seq<CardModel>
    decreases notes.len(),
{
    if notes.len() == 0 {
        Seq::empty()
    } else {
        spec_notes_cards(notes.drop_last()) + spec_cards(notes.last())
    }
}

/// The cards of a whole subtree: the subtrees of the children first, then
/// the deck's own notes' cards.
pub open spec fn spec_all_cards(m: DeckModel) -> Seq<CardModel>
    decreases m, 1int,
{
    spec_decks_all_cards(m.subdecks) + spec_notes_cards(m.notes)
}

pub open spec fn spec_decks_all_cards(s: Seq<DeckModel>) -> Seq<CardModel>
    decreases s, 0int,
{
    if s.len() == 0 {
        Seq::empty()
    } else {
        spec_all_cards(s[0]) + spec_decks_all_cards(s.drop_first())
    }
}

/// Depth-first search for the first deck with the given id: the deck
/// itself, else its subtrees in order.
pub open spec fn spec_find(m: DeckModel, id: u128) -> Option<DeckModel>
    decreases m, 1int,
{
    if m.id == id {
        Some(m)
    } else {
        spec_find_in(m.subdecks, id)
    }
}

pub open spec fn spec_find_in(s: Seq<DeckModel>, id: u128) -> Option<DeckModel>
    decreases s, 0int,
{
    if s.len() == 0 {
        None
    } else if spec_find(s[0], id) is Some {
        spec_find(s[0], id)
    } else {
        spec_find_in(s.drop_first(), id)
    }
}

/// Whether a deck with the given id occurs in one of the trees.
pub open spec fn contains_id(s: Seq<DeckModel>, id: u128) -> bool {
    spec_find_in(s, id) is Some
}

/// The size of a deck model, used as a termination measure for the
/// operations that rebuild parts of the tree.
pub open spec fn dm_height(m: DeckModel) -> nat
    decreases m, 0int,
{
    1 + dms_height(m.subdecks)
}

pub open spec fn dms_height(s: Seq<DeckModel>) -> nat
    decreases s, 1int,
{
    if s.len() == 0 {
        0
    } else {
        1 + dm_height(s[0]) + dms_height(s.drop_first())
    }
}

pub proof fn lemma_dms_height_elem(s: Seq<DeckModel>, i: int)
    requires
        0 <= i < s.len(),
    ensures
        dm_height(s[i]) < dms_height(s),
    decreases i,
{
    if i > 0 {
        lemma_dms_height_elem(s.drop_first(), i - 1);
    }
}

/// All decks of a subtree, strict descendants of each child before the
/// children themselves.
pub open spec fn spec_all_subdecks(m: DeckModel) -> Seq<DeckModel>
    decreases m, 1int,
{
    spec_decks_all_subdecks(m.subdecks) + m.subdecks
}

pub open spec fn spec_decks_all_subdecks(s: Seq<DeckModel>) -> Seq<DeckModel>
    decreases s, 0int,
{
    if s.len() == 0 {
        Seq::empty()
    } else {
        spec_all_subdecks(s[0]) + spec_decks_all_subdecks(s.drop_first())
    }
}

/// Whether some deck at this level (not inside one) has the given id.
pub open spec fn has_at_level(s: Seq<DeckModel>, id: u128) -> bool {
    exists|j: int| 0 <= j < s.len() && #[trigger] s[j].id == id
}

/// The level with the first deck of the given id taken out.
pub open spec fn remove_first_at_level(s: Seq<DeckModel>, id: u128) -> Seq<DeckModel>
    decreases s.len(),
{
    if s.len() == 0 {
        s
    } else if s[0].id == id {
        s.drop_first()
    } else {
        seq![s[0]] + remove_first_at_level(s.drop_first(), id)
    }
}

/// Removing a deck from a forest: the first match at this level is taken
/// out with its whole subtree; when none matches here, every tree is
/// searched recursively.
pub open spec fn spec_remove_deck_in(s: Seq<DeckModel>, id: u128) -> Seq<DeckModel>
    decreases s, 2int,
{
    if has_at_level(s, id) {
        remove_first_at_level(s, id)
    } else {
        remove_inside_each(s, id)
    }
}

pub open spec fn remove_inside_each(s: Seq<DeckModel>, id: u128) -> Seq<DeckModel>
    decreases s, 1int,
{
    if s.len() == 0 {
        s
    } else {
        seq![remove_inside(s[0], id)] + remove_inside_each(s.drop_first(), id)
    }
}

/// A deck with the given id removed from somewhere below it.
pub open spec fn remove_inside(m: DeckModel, id: u128) -> DeckModel
    decreases m, 0int,
{
    DeckModel { subdecks: spec_remove_deck_in(m.subdecks, id), ..m }
}

pub proof fn lemma_remove_inside_each_pointwise(s: Seq<DeckModel>, id: u128)
    ensures
        remove_inside_each(s, id).len() == s.len(),
        forall|j: int|
            0 <= j < s.len() ==> #[trigger] remove_inside_each(s, id)[j] == remove_inside(
                s[j],
                id,
            ),
    decreases s.len(),
{
    if s.len() > 0 {
        lemma_remove_inside_each_pointwise(s.drop_first(), id);
    }
}

pub proof fn lemma_remove_first_at_level_at(s: Seq<DeckModel>, id: u128, p: int)
    requires
        0 <= p < s.len(),
        s[p].id == id,
        forall|j: int| 0 <= j < p ==> s[j].id != id,
    ensures
        remove_first_at_level(s, id) == s.remove(p),
    decreases p,
{
    if p == 0 {
        assert(remove_first_at_level(s, id) =~= s.remove(0));
    } else {
        lemma_remove_first_at_level_at(s.drop_first(), id, p - 1);
        assert(s.drop_first().remove(p - 1) =~= s.remove(p).drop_first());
        assert(remove_first_at_level(s, id) =~= s.remove(p));
    }
}

/// Inserting a new deck under the first deck with the given id in a tree:
/// the new deck is appended to that deck's children, with the parent's
/// qualified name recorded on it. `None` when the id does not occur.
pub open spec fn spec_insert_under(m: DeckModel, parent: u128, d: DeckModel) -> Option<DeckModel>
    decreases m, 0int,
{
    if m.id == parent {
        Some(
            DeckModel {
                subdecks: m.subdecks.push(
                    DeckModel { parent: Some(spec_qualified_name(m)), ..d },
                ),
                ..m
            },
        )
    } else {
        match spec_insert_in(m.subdecks, parent, d) {
            Some(s2) => Some(DeckModel { subdecks: s2, ..m }),
            None => None,
        }
    }
}

pub open spec fn spec_insert_in(s: Seq<DeckModel>, parent: u128, d: DeckModel) -> Option<
    Seq<DeckModel>,
>
    decreases s, 1int,
{
    if s.len() == 0 {
        None
    } else {
        match spec_insert_under(s[0], parent, d) {
            Some(m2) => Some(seq![m2] + s.drop_first()),
            None => match spec_insert_in(s.drop_first(), parent, d) {
                Some(r) => Some(seq![s[0]] + r),
                None => None,
            },
        }
    }
}

pub proof fn lemma_insert_in_prefix(s: Seq<DeckModel>, parent: u128, d: DeckModel, i: int)
    requires
        0 <= i <= s.len(),
        forall|j: int| 0 <= j < i ==> spec_insert_under(#[trigger] s[j], parent, d) is None,
    ensures
        spec_insert_in(s, parent, d) == match spec_insert_in(s.skip(i), parent, d) {
            Some(t) => Some(s.take(i) + t),
            None => None::<Seq<DeckModel>>,
        },
    decreases i,
{
    if i == 0 {
        assert(s.skip(0) =~= s);
        match spec_insert_in(s, parent, d) {
            Some(t) => {
                assert(s.take(0) + t =~= t);
            },
            None => {},
        }
    } else {
        assert(s.len() > 0);
        assert(spec_insert_under(s[0], parent, d) is None);
        lemma_insert_in_prefix(s.drop_first(), parent, d, i - 1);
        assert(s.drop_first().skip(i - 1) =~= s.skip(i));
        match spec_insert_in(s.skip(i), parent, d) {
            Some(t) => {
                assert(seq![s[0]] + (s.drop_first().take(i - 1) + t) =~= s.take(i) + t);
            },
            None => {},
        }
    }
}

/// Appending a note to the first deck with the given id in a tree.
/// `None` when the id does not occur.
pub open spec fn spec_note_under(m: DeckModel, id: u128, n: NoteModel) -> Option<DeckModel>
    decreases m, 0int,
{
    if m.id == id {
        Some(DeckModel { notes: m.notes.push(n), ..m })
    } else {
        match spec_note_in(m.subdecks, id, n) {
            Some(s2) => Some(DeckModel { subdecks: s2, ..m }),
            None => None,
        }
    }
}

pub open spec fn spec_note_in(s: Seq<DeckModel>, id: u128, n: NoteModel) -> Option<Seq<DeckModel>>
    decreases s, 1int,
{
    if s.len() == 0 {
        None
    } else {
        match spec_note_under(s[0], id, n) {
            Some(m2) => Some(seq![m2] + s.drop_first()),
            None => match spec_note_in(s.drop_first(), id, n) {
                Some(r) => Some(seq![s[0]] + r),
                None => None,
            },
        }
    }
}

pub proof fn lemma_note_in_prefix(s: Seq<DeckModel>, id: u128, n: NoteModel, i: int)
    requires
        0 <= i <= s.len(),
        forall|j: int| 0 <= j < i ==> spec_note_under(#[trigger] s[j], id, n) is None,
    ensures
        spec_note_in(s, id, n) == match spec_note_in(s.skip(i), id, n) {
            Some(t) => Some(s.take(i) + t),
            None => None::<Seq<DeckModel>>,
        },
    decreases i,
{
    if i == 0 {
        assert(s.skip(0) =~= s);
        match spec_note_in(s, id, n) {
            Some(t) => {
                assert(s.take(0) + t =~= t);
            },
            None => {},
        }
    } else {
        assert(s.len() > 0);
        assert(spec_note_under(s[0], id, n) is None);
        lemma_note_in_prefix(s.drop_first(), id, n, i - 1);
        assert(s.drop_first().skip(i - 1) =~= s.skip(i));
        match spec_note_in(s.skip(i), id, n) {
            Some(t) => {
                assert(seq![s[0]] + (s.drop_first().take(i - 1) + t) =~= s.take(i) + t);
            },
            None => {},
        }
    }
}

/// The models of a sequence of borrowed decks.
pub open spec fn deck_refs_view(s: Seq<&Deck>) -> Seq<DeckModel>
    decreases s,
{
    if s.len() == 0 {
        Seq::empty()
    } else {
        seq![deck_view(*s[0])] + deck_refs_view(s.drop_first())
    }
}

pub proof fn lemma_deck_refs_view_len(s: Seq<&Deck>)
    ensures
        deck_refs_view(s).len() == s.len(),
        forall|i: int| 0 <= i < s.len() ==> #[trigger] deck_refs_view(s)[i] == deck_view(*s[i]),
    decreases s,
{
    if s.len() > 0 {
        lemma_deck_refs_view_len(s.drop_first());
    }
}

/// Searches the trees `v[i..]` for the first deck with the given id.
pub(crate) fn find_in_decks<'a>(v: &'a Vec<Deck>, i: usize, uuid: u128) -> (r: Option<&'a Deck>)
    requires
        i <= v.len(),
    ensures
        match r {
            Some(f) => spec_find_in(decks_view(v@).skip(i as int), uuid) == Some(f@),
            None => spec_find_in(decks_view(v@).skip(i as int), uuid) is None,
        },
    decreases v, v.len() - i, 0int,
{
    proof {
        lemma_decks_view_len(v@);
    }
    if i == v.len() {
        proof {
            assert(decks_view(v@).skip(i as int) =~= Seq::<DeckModel>::empty());
        }
        None
    } else {
        proof {
            assert(decks_view(v@).skip(i as int)[0] == deck_view(v@[i as int]));
            assert(decks_view(v@).skip(i as int).drop_first() =~= decks_view(v@).skip(
                i as int + 1,
            ));
        }
        match v[i].find_deck(uuid) {
            Some(f) => Some(f),
            None => find_in_decks(v, i + 1, uuid),
        }
    }
}

/// Removes the first deck with the given id from the forest, per
/// `spec_remove_deck_in`.
pub(crate) fn remove_deck_in_vec(v: &mut Vec<Deck>, uuid: u128)
    ensures
        decks_view(final(v)@) == spec_remove_deck_in(decks_view(old(v)@), uuid),
    decreases dms_height(decks_view(old(v)@)),
{
    let ghost s0 = decks_view(old(v)@);
    proof {
        lemma_decks_view_len(old(v)@);
    }
    let mut pos: Option<usize> = None;
    let mut i: usize = 0;
    while i < v.len()
        invariant
            i <= v@.len(),
            v@ == old(v)@,
            s0 == decks_view(old(v)@),
            s0.len() == v@.len(),
            forall|j: int| 0 <= j < s0.len() ==> #[trigger] s0[j].id == v@[j].uuid,
            match pos {
                Some(p) => p < i && s0[p as int].id == uuid && forall|j: int|
                    0 <= j < p ==> #[trigger] s0[j].id != uuid,
                None => forall|j: int| 0 <= j < i ==> #[trigger] s0[j].id != uuid,
            },
        decreases v@.len() - i,
    {
        if pos.is_none() && v[i].uuid == uuid {
            pos = Some(i);
        }
        i = i + 1;
    }
    match pos {
        Some(p) => {
            proof {
                assert(has_at_level(s0, uuid));
                lemma_remove_first_at_level_at(s0, uuid, p as int);
            }
            v.remove(p);
            proof {
                lemma_decks_view_len(v@);
                assert(decks_view(v@) =~= s0.remove(p as int));
            }
        },
        None => {
            proof {
                assert(!has_at_level(s0, uuid));
                lemma_remove_inside_each_pointwise(s0, uuid);
            }
            let mut rest: Vec<Deck> = Vec::new();
            core::mem::swap(v, &mut rest);
            proof {
                assert(v@ =~= Seq::<Deck>::empty());
                assert(decks_view(v@) =~= remove_inside_each(s0, uuid).take(0));
                assert(rest@ =~= old(v)@.skip(0));
            }
            while rest.len() > 0
                invariant
                    v@.len() + rest@.len() == old(v)@.len(),
                    rest@ == old(v)@.skip(v@.len() as int),
                    s0 == decks_view(old(v)@),
                    s0.len() == old(v)@.len(),
                    !has_at_level(s0, uuid),
                    decks_view(v@) == remove_inside_each(s0, uuid).take(v@.len() as int),
                decreases rest@.len(),
            {
                let ghost k = v@.len() as int;
                let mut d = rest.remove(0);
                proof {
                    assert(d == old(v)@[k]);
                    lemma_decks_view_len(old(v)@);
                    assert(deck_view(d) == s0[k]);
                    lemma_dms_height_elem(s0, k);
                }
                d.remove_deck(uuid);
                proof {
                    lemma_decks_view_push(v@, d);
                    lemma_remove_inside_each_pointwise(s0, uuid);
                }
                v.push(d);
                proof {
                    assert(decks_view(v@) =~= remove_inside_each(s0, uuid).take(
                        v@.len() as int,
                    ));
                    assert(rest@ =~= old(v)@.skip(v@.len() as int));
                }
            }
            proof {
                lemma_remove_inside_each_pointwise(s0, uuid);
                assert(decks_view(v@) =~= remove_inside_each(s0, uuid));
            }
        },
    }
}

/// Carries the new deck across the forest, handing it to the first tree
/// that contains the parent; returns it when no tree does.
pub(crate) fn insert_in_vec(v: &mut Vec<Deck>, parent: u128, deck: Deck) -> (rest: Option<Deck>)
    ensures
        match rest {
            Some(d) => d == deck && decks_view(final(v)@) == decks_view(old(v)@)
                && spec_insert_in(decks_view(old(v)@), parent, deck@) is None,
            None => spec_insert_in(decks_view(old(v)@), parent, deck@) == Some(
                decks_view(final(v)@),
            ),
        },
    decreases dms_height(decks_view(old(v)@)),
{
    let ghost s0 = decks_view(old(v)@);
    proof {
        lemma_decks_view_len(old(v)@);
    }
    let mut carried = deck;
    let mut i: usize = 0;
    while i < v.len()
        invariant
            i <= v@.len(),
            v@.len() == old(v)@.len(),
            decks_view(v@) == s0,
            carried == deck,
            s0 == decks_view(old(v)@),
            s0.len() == v@.len(),
            forall|j: int|
                0 <= j < i ==> spec_insert_under(#[trigger] s0[j], parent, deck@) is None,
        decreases v@.len() - i,
    {
        let ghost vpre = v@;
        proof {
            lemma_decks_view_len(vpre);
            assert(deck_view(vpre[i as int]) == s0[i as int]);
            lemma_dms_height_elem(s0, i as int);
        }
        let e = &mut v[i];
        let r = e.insert_under(parent, carried);
        match r {
            None => {
                proof {
                    lemma_insert_in_prefix(s0, parent, deck@, i as int);
                    assert(s0.skip(i as int)[0] == s0[i as int]);
                    assert(s0[i as int] == deck_view(vpre[i as int]));
                    assert(s0.skip(i as int).drop_first() =~= s0.skip(i as int + 1));
                }
                proof {
                    lemma_decks_view_len(v@);
                    assert(v@ == vpre.update(i as int, v@[i as int]));
                    assert(decks_view(v@) =~= s0.take(i as int) + (seq![
                        deck_view(v@[i as int]),
                    ] + s0.skip(i as int + 1)));
                }
                return None;
            },
            Some(d) => {
                proof {
                    lemma_decks_view_len(v@);
                    assert(v@ == vpre.update(i as int, v@[i as int]));
                    assert(decks_view(v@) =~= s0);
                }
                carried = d;
                i = i + 1;
            },
        }
    }
    proof {
        lemma_insert_in_prefix(s0, parent, deck@, s0.len() as int);
        assert(s0.skip(s0.len() as int).len() == 0);
    }
    Some(carried)
}

/// Carries the note across the forest, handing it to the first tree that
/// contains the deck; returns it when no tree does.
pub(crate) fn note_in_vec(v: &mut Vec<Deck>, id: u128, note: Note) -> (rest: Option<Note>)
    ensures
        match rest {
            Some(n) => n == note && decks_view(final(v)@) == decks_view(old(v)@)
                && spec_note_in(decks_view(old(v)@), id, note@) is None,
            None => spec_note_in(decks_view(old(v)@), id, note@) == Some(decks_view(final(v)@)),
        },
    decreases dms_height(decks_view(old(v)@)),
{
    let ghost s0 = decks_view(old(v)@);
    proof {
        lemma_decks_view_len(old(v)@);
    }
    let mut carried = note;
    let mut i: usize = 0;
    while i < v.len()
        invariant
            i <= v@.len(),
            v@.len() == old(v)@.len(),
            decks_view(v@) == s0,
            carried == note,
            s0 == decks_view(old(v)@),
            s0.len() == v@.len(),
            forall|j: int| 0 <= j < i ==> spec_note_under(#[trigger] s0[j], id, note@) is None,
        decreases v@.len() - i,
    {
        let ghost vpre = v@;
        proof {
            lemma_decks_view_len(vpre);
            assert(deck_view(vpre[i as int]) == s0[i as int]);
            lemma_dms_height_elem(s0, i as int);
        }
        let e = &mut v[i];
        let r = e.add_note_under(id, carried);
        match r {
            None => {
                proof {
                    lemma_note_in_prefix(s0, id, note@, i as int);
                    assert(s0.skip(i as int)[0] == s0[i as int]);
                    assert(s0[i as int] == deck_view(vpre[i as int]));
                    assert(s0.skip(i as int).drop_first() =~= s0.skip(i as int + 1));
                }
                proof {
                    lemma_decks_view_len(v@);
                    assert(v@ == vpre.update(i as int, v@[i as int]));
                    assert(decks_view(v@) =~= s0.take(i as int) + (seq![
                        deck_view(v@[i as int]),
                    ] + s0.skip(i as int + 1)));
                }
                return None;
            },
            Some(n) => {
                proof {
                    lemma_decks_view_len(v@);
                    assert(v@ == vpre.update(i as int, v@[i as int]));
                    assert(decks_view(v@) =~= s0);
                }
                carried = n;
                i = i + 1;
            },
        }
    }
    proof {
        lemma_note_in_prefix(s0, id, note@, s0.len() as int);
        assert(s0.skip(s0.len() as int).len() == 0);
    }
    Some(carried)
}

/// Collects the cards of the whole subtrees `v[i..]`, in order.
pub(crate) fn all_cards_in(v: &Vec<Deck>, i: usize) -> (r: Vec<Card>)
    requires
        i <= v.len(),
    ensures
        r.deep_view() == spec_decks_all_cards(decks_view(v@).skip(i as int)),
    decreases v, v.len() - i, 0int,
{
    proof {
        lemma_decks_view_len(v@);
    }
    if i == v.len() {
        proof {
            assert(decks_view(v@).skip(i as int) =~= Seq::<DeckModel>::empty());
        }
        Vec::new()
    } else {
        proof {
            assert(decks_view(v@).skip(i as int)[0] == deck_view(v@[i as int]));
            assert(decks_view(v@).skip(i as int).drop_first() =~= decks_view(v@).skip(
                i as int + 1,
            ));
        }
        let mut out = v[i].get_all_cards();
        let ghost head = out.deep_view();
        let mut tail = all_cards_in(v, i + 1);
        let ghost tail_view = tail.deep_view();
        out.append(&mut tail);
        proof {
            assert(out.deep_view() =~= head + tail_view);
        }
        out
    }
}

/// Borrows of the decks `v[i..]` themselves, in order.
pub(crate) fn deck_refs_of<'a>(v: &'a Vec<Deck>, i: usize) -> (r: Vec<&'a Deck>)
    requires
        i <= v.len(),
    ensures
        deck_refs_view(r@) == decks_view(v@).skip(i as int),
    decreases v.len() - i,
{
    proof {
        lemma_decks_view_len(v@);
    }
    if i == v.len() {
        proof {
            assert(decks_view(v@).skip(i as int) =~= Seq::<DeckModel>::empty());
        }
        Vec::new()
    } else {
        let mut out: Vec<&Deck> = Vec::new();
        out.push(&v[i]);
        let ghost head_seq = out@;
        let mut tail = deck_refs_of(v, i + 1);
        let ghost tail_seq = tail@;
        out.append(&mut tail);
        proof {
            lemma_deck_refs_view_len(out@);
            lemma_deck_refs_view_len(tail_seq);
            assert(out@ =~= head_seq + tail_seq);
            assert(out@[0] == &v[i as int]);
            assert(deck_view(*out@[0]) == decks_view(v@)[i as int]);
            assert forall|k: int| 1 <= k < out@.len() implies #[trigger] deck_refs_view(out@)[k]
                == decks_view(v@).skip(i as int)[k] by {
                assert(out@[k] == tail_seq[k - 1]);
                assert(deck_refs_view(tail_seq)[k - 1] == deck_view(*tail_seq[k - 1]));
                assert(deck_refs_view(tail_seq)[k - 1] == decks_view(v@).skip(i as int + 1)[k
                    - 1]);
            }
            assert(deck_refs_view(out@) =~= decks_view(v@).skip(i as int));
        }
        out
    }
}

/// Collects borrows of all decks of the subtrees `v[i..]`, strict
/// descendants of each tree before the trees themselves.
pub(crate) fn all_subdecks_in<'a>(v: &'a Vec<Deck>, i: usize) -> (r: Vec<&'a Deck>)
    requires
        i <= v.len(),
    ensures
        deck_refs_view(r@) == spec_decks_all_subdecks(decks_view(v@).skip(i as int)),
    decreases v, v.len() - i, 0int,
{
    proof {
        lemma_decks_view_len(v@);
    }
    if i == v.len() {
        proof {
            assert(decks_view(v@).skip(i as int) =~= Seq::<DeckModel>::empty());
        }
        Vec::new()
    } else {
        proof {
            assert(decks_view(v@).skip(i as int)[0] == deck_view(v@[i as int]));
            assert(decks_view(v@).skip(i as int).drop_first() =~= decks_view(v@).skip(
                i as int + 1,
            ));
        }
        let mut out = v[i].get_all_subdecks();
        let ghost head = deck_refs_view(out@);
        let ghost head_seq = out@;
        let mut tail = all_subdecks_in(v, i + 1);
        let ghost tail_view = deck_refs_view(tail@);
        let ghost tail_seq = tail@;
        out.append(&mut tail);
        proof {
            lemma_deck_refs_view_len(out@);
            lemma_deck_refs_view_len(head_seq);
            lemma_deck_refs_view_len(tail_seq);
            assert(out@ =~= head_seq + tail_seq);
            assert(deck_refs_view(out@) =~= head + tail_view);
        }
        out
    }
}

impl Deck {
    /// A new empty deck with the given name and an arbitrary fresh id.
    pub fn new(name: String) -> (r: Self)
        ensures
            r@.name == name@,
            r@.subdecks.len() == 0,
            r@.notes.len() == 0,
            r@.parent is None,
    {
        let d = Deck {
            name,
            subdecks: Vec::new(),
            notes: Vec::new(),
            uuid: fresh_id(),
            parent: None,
        };
        proof {
            assert(d@.subdecks =~= Seq::<DeckModel>::empty());
            assert(d@.notes =~= Seq::<NoteModel>::empty());
        }
        d
    }

    pub fn qualified_name(&self) -> (r: String)
        ensures
            r@ == spec_qualified_name(self@),
    {
        match &self.parent {
            Some(p) => {
                let mut s = p.clone();
                s.append(":");
                s.append(self.name.as_str());
                s
            },
            None => self.name.clone(),
        }
    }

    /// Appends a deck to the child list, recording this deck's qualified
    /// name as the child's parent.
    pub fn add_subdeck(&mut self, deck: Deck)
        ensures
            final(self)@ == (DeckModel {
                subdecks: old(self)@.subdecks.push(
                    DeckModel { parent: Some(spec_qualified_name(old(self)@)), ..deck@ },
                ),
                ..old(self)@
            }),
    {
        let mut deck = deck;
        deck.parent = Some(self.qualified_name());
        proof {
            lemma_decks_view_push(self.subdecks@, deck);
        }
        self.subdecks.push(deck);
    }

    /// Appends a note to the deck's note list.
    pub fn add_note(&mut self, card: Note)
        ensures
            final(self)@ == (DeckModel { notes: old(self)@.notes.push(card@), ..old(self)@ }),
    {
        self.notes.push(card);
        proof {
            assert(self.notes.deep_view() =~= old(self).notes.deep_view().push(card@));
        }
    }

    pub fn get_notes(&self) -> (r: &Vec<Note>)
        ensures
            r.deep_view() == self@.notes,
    {
        &self.notes
    }

    pub fn get_subdecks(&self) -> (r: &Vec<Deck>)
        ensures
            decks_view(r@) == self@.subdecks,
    {
        &self.subdecks
    }

    /// The cards derived from this deck's own notes, in note order.
    pub fn get_cards(&self) -> (r: Vec<Card>)
        ensures
            r.deep_view() == spec_notes_cards(self@.notes),
    {
        let mut out: Vec<Card> = Vec::new();
        let mut i: usize = 0;
        proof {
            assert(out.deep_view() =~= spec_notes_cards(self@.notes.take(0)));
        }
        while i < self.notes.len()
            invariant
                i <= self.notes.len(),
                out.deep_view() == spec_notes_cards(self@.notes.take(i as int)),
                self@.notes == self.notes.deep_view(),
            decreases self.notes.len() - i,
        {
            let mut cs = self.notes[i].get_cards();
            proof {
                assert(self@.notes.take(i + 1).drop_last() =~= self@.notes.take(i as int));
                assert(self@.notes.take(i + 1).last() == self@.notes[i as int]);
            }
            let ghost old_out = out.deep_view();
            let ghost cs_view = cs.deep_view();
            out.append(&mut cs);
            proof {
                assert(out.deep_view() =~= old_out + cs_view);
            }
            i = i + 1;
        }
        proof {
            assert(self@.notes.take(self.notes.len() as int) =~= self@.notes);
        }
        out
    }

    /// Removes the first deck with the given id found below this deck,
    /// with its whole subtree. A missing id is a silent no-op.
    pub fn remove_deck(&mut self, uuid: u128)
        ensures
            final(self)@ == remove_inside(old(self)@, uuid),
        decreases dm_height(old(self)@),
    {
        remove_deck_in_vec(&mut self.subdecks, uuid);
    }

    /// Hands the new deck to the first deck with the given id in this
    /// subtree; returns it back when the id does not occur.
    pub fn insert_under(&mut self, parent: u128, deck: Deck) -> (rest: Option<Deck>)
        ensures
            match rest {
                Some(d) => d == deck && final(self)@ == old(self)@ && spec_insert_under(
                    old(self)@,
                    parent,
                    deck@,
                ) is None,
                None => spec_insert_under(old(self)@, parent, deck@) == Some(final(self)@),
            },
        decreases dm_height(old(self)@),
    {
        if self.uuid == parent {
            self.add_subdeck(deck);
            None
        } else {
            let r = insert_in_vec(&mut self.subdecks, parent, deck);
            match r {
                Some(d) => Some(d),
                None => None,
            }
        }
    }

    /// Hands the note to the first deck with the given id in this subtree;
    /// returns it back when the id does not occur.
    pub fn add_note_under(&mut self, id: u128, note: Note) -> (rest: Option<Note>)
        ensures
            match rest {
                Some(n) => n == note && final(self)@ == old(self)@ && spec_note_under(
                    old(self)@,
                    id,
                    note@,
                ) is None,
                None => spec_note_under(old(self)@, id, note@) == Some(final(self)@),
            },
        decreases dm_height(old(self)@),
    {
        if self.uuid == id {
            self.add_note(note);
            None
        } else {
            let r = note_in_vec(&mut self.subdecks, id, note);
            match r {
                Some(n) => Some(n),
                None => None,
            }
        }
    }

    /// The cards of the whole subtree: the children's subtrees first,
    /// then this deck's own notes' cards.
    pub fn get_all_cards(&self) -> (r: Vec<Card>)
        ensures
            r.deep_view() == spec_all_cards(self@),
        decreases self, 0int, 1int,
    {
        proof {
            assert(decks_view(self.subdecks@).skip(0) =~= decks_view(self.subdecks@));
        }
        let mut out = all_cards_in(&self.subdecks, 0);
        let ghost head = out.deep_view();
        let mut own = self.get_cards();
        let ghost own_view = own.deep_view();
        out.append(&mut own);
        proof {
            assert(out.deep_view() =~= head + own_view);
        }
        out
    }

    /// All decks strictly below this one: strict descendants of each
    /// child before the children themselves.
    pub fn get_all_subdecks(&self) -> (r: Vec<&Deck>)
        ensures
            deck_refs_view(r@) == spec_all_subdecks(self@),
        decreases self, 0int, 1int,
    {
        proof {
            assert(decks_view(self.subdecks@).skip(0) =~= decks_view(self.subdecks@));
        }
        let mut out = all_subdecks_in(&self.subdecks, 0);
        let ghost head_seq = out@;
        let mut tail = deck_refs_of(&self.subdecks, 0);
        let ghost tail_seq = tail@;
        out.append(&mut tail);
        proof {
            lemma_deck_refs_view_len(out@);
            lemma_deck_refs_view_len(head_seq);
            lemma_deck_refs_view_len(tail_seq);
            assert(out@ =~= head_seq + tail_seq);
            assert(deck_refs_view(out@) =~= spec_all_subdecks(self@));
        }
        out
    }

    /// The first deck with the given id in this subtree, depth first.
    pub fn find_deck(&self, uuid: u128) -> (r: Option<&Deck>)
        ensures
            match r {
                Some(f) => spec_find(self@, uuid) == Some(f@),
                None => spec_find(self@, uuid) is None,
            },
        decreases self, 0int, 1int,
    {
        if self.uuid == uuid {
            Some(self)
        } else {
            proof {
                assert(decks_view(self.subdecks@).skip(0) =~= decks_view(self.subdecks@));
            }
            find_in_decks(&self.subdecks, 0, uuid)
        }
    }
}

} // verus!
