use vstd::prelude::*;
use vstd::string::StringExecFns;

use crate::action::{Action, Screen};
use crate::collection::{spec_add_deck_to, Collection, CollectionModel};
use crate::deck::{
    contains_id, deck_view, decks_view, has_at_level, lemma_decks_view_len,
    remove_first_at_level, remove_inside, remove_inside_each, spec_insert_in, spec_insert_under,
    spec_note_in, spec_note_under, spec_notes_cards, spec_qualified_name, spec_remove_deck_in,
    Deck, DeckModel,
};
use crate::deck_panel::{
    insert_note_wf, note_insert_step, spec_note_insert_step, InsertNoteModel, InsertNoteState,
};
use crate::idset::IdSet;
use crate::note::NoteModel;
use crate::input_state::{
    input_wf, left_model, pop_model, push_model, right_model, InputModel, InputState,
};
use crate::textutil::{chars_to_string, dec_digits, dec_string};
use vstd::arithmetic::div_mod::{lemma_mod_multiples_vanish, lemma_small_mod};

verus! {

/// What a row points at: a deck, or the place where a new deck would be
/// created under a parent (the collection id standing for the top level).
#[derive(Debug, Clone, Copy, PartialEq, Eq, Structural)]
pub enum RowTarget {
    DeckItem(u128),
    AddToItem(u128),
}

/// Mathematical value of one display row.
#[verifier::ext_equal]
pub struct RowModel {
    pub label: Seq<char>,
    pub target: RowTarget,
}

/// One line of the selectable deck list.
#[derive(Debug, PartialEq, Eq)]
pub struct Row {
    pub label: String,
    pub target: RowTarget,
}

impl View for Row {
    type V = RowModel;

    open spec fn view(&self) -> RowModel {
        RowModel { label: self.label@, target: self.target }
    }
}

/// The models of a sequence of rows, in order.
pub open spec fn rows_view(s: Seq<Row>) -> Seq<RowModel>
    decreases s,
{
    if s.len() == 0 {
        Seq::empty()
    } else {
        seq![s[0]@] + rows_view(s.drop_first())
    }
}

pub proof fn lemma_rows_view_len(s: Seq<Row>)
    ensures
        rows_view(s).len() == s.len(),
        forall|i: int| 0 <= i < s.len() ==> #[trigger] rows_view(s)[i] == s[i]@,
    decreases s,
{
    if s.len() > 0 {
        lemma_rows_view_len(s.drop_first());
    }
}

pub proof fn lemma_rows_view_concat(a: Seq<Row>, b: Seq<Row>)
    ensures
        rows_view(a + b) == rows_view(a) + rows_view(b),
{
    lemma_rows_view_len(a + b);
    lemma_rows_view_len(a);
    lemma_rows_view_len(b);
    assert(rows_view(a + b) =~= rows_view(a) + rows_view(b));
}

/// The modal interaction state: browsing (with the id of the selected
/// deck, if one is selected), entering a new deck's name under a parent,
/// or entering a new note.
#[derive(Debug, PartialEq, Eq)]
pub enum Mode {
    Normal(Option<u128>),
    InsertDeck(u128, InputState),
    InsertNote(InsertNoteState),
}

/// Mathematical value of the mode.
#[verifier::ext_equal]
pub enum ModeModel {
    Normal(Option<u128>),
    InsertDeck(u128, InputModel),
    InsertNote(InsertNoteModel),
}

impl View for Mode {
    type V = ModeModel;

    open spec fn view(&self) -> ModeModel {
        match self {
            Mode::Normal(sel) => ModeModel::Normal(*sel),
            Mode::InsertDeck(id, buf) => ModeModel::InsertDeck(*id, buf@),
            Mode::InsertNote(st) => ModeModel::InsertNote(st@),
        }
    }
}

/// Any text buffer the mode holds keeps its cursor inside its text.
pub open spec fn mode_wf(m: ModeModel) -> bool {
    match m {
        ModeModel::Normal(_) => true,
        ModeModel::InsertDeck(_, buf) => input_wf(buf),
        ModeModel::InsertNote(st) => insert_note_wf(st),
    }
}

/// The deck-name entry target of the mode, when it is entering one.
pub open spec fn spec_mode_insert(m: ModeModel) -> Option<(u128, InputModel)> {
    match m {
        ModeModel::InsertDeck(id, buf) => Some((id, buf)),
        _ => None,
    }
}

/// The entered text with the cursor marked at its offset.
pub open spec fn spec_with_cursor(m: InputModel) -> Seq<char> {
    m.text.take(m.cursor) + "_"@ + m.text.skip(m.cursor)
}

/// The label of a deck row: indentation, an expansion marker, the deck's
/// own card and subdeck counts, and its name.
pub open spec fn spec_deck_label(m: DeckModel, pre: Seq<char>, expanded: bool) -> Seq<char> {
    pre + (if expanded {
        "v "@
    } else {
        "> "@
    }) + dec_digits(spec_notes_cards(m.notes).len()) + "/"@ + dec_digits(m.subdecks.len())
        + " "@ + m.name
}

/// The create row of a level: the live entry buffer with its cursor when
/// a deck is being entered under this parent, the static affordance
/// otherwise.
pub open spec fn spec_create_row(
    parent: u128,
    pre: Seq<char>,
    ins: Option<(u128, InputModel)>,
) -> RowModel {
    match ins {
        Some(p) => if p.0 == parent {
            RowModel {
                label: pre + ">> "@ + spec_with_cursor(p.1),
                target: RowTarget::AddToItem(parent),
            }
        } else {
            RowModel { label: pre + "[+]"@, target: RowTarget::AddToItem(parent) }
        },
        None => RowModel { label: pre + "[+]"@, target: RowTarget::AddToItem(parent) },
    }
}

/// The rows of one deck: its own row, then, when it is expanded, the rows
/// of its child level.
pub open spec fn spec_rows_deck(
    m: DeckModel,
    exp: Set<u128>,
    ins: Option<(u128, InputModel)>,
    pre: Seq<char>,
) -> Seq<RowModel>
    decreases m, 2int,
{
    seq![
        RowModel {
            label: spec_deck_label(m, pre, exp.contains(m.id)),
            target: RowTarget::DeckItem(m.id),
        },
    ] + if exp.contains(m.id) {
        spec_rows_level(m.subdecks, exp, ins, m.id, pre + "  "@)
    } else {
        Seq::empty()
    }
}

/// The rows of one visible level: the rows of its decks in order, then
/// the level's create row.
pub open spec fn spec_rows_level(
    s: Seq<DeckModel>,
    exp: Set<u128>,
    ins: Option<(u128, InputModel)>,
    parent: u128,
    pre: Seq<char>,
) -> Seq<RowModel>
    decreases s, 1int,
{
    spec_rows_list(s, exp, ins, pre) + seq![spec_create_row(parent, pre, ins)]
}

pub open spec fn spec_rows_list(
    s: Seq<DeckModel>,
    exp: Set<u128>,
    ins: Option<(u128, InputModel)>,
    pre: Seq<char>,
) -> Seq<RowModel>
    decreases s, 0int,
{
    if s.len() == 0 {
        Seq::empty()
    } else {
        spec_rows_deck(s[0], exp, ins, pre) + spec_rows_list(s.drop_first(), exp, ins, pre)
    }
}

/// The whole row list: the top level under the collection id, children
/// gated by the expansion set, with the create row of the level a deck
/// name is being entered under shown live.
pub open spec fn spec_rows(
    c: CollectionModel,
    exp: Set<u128>,
    ins: Option<(u128, InputModel)>,
) -> Seq<RowModel> {
    spec_rows_level(c.decks, exp, ins, c.id, Seq::empty())
}

/// The entered text with the cursor marked, as a string.
fn with_cursor_string(b: &InputState) -> (r: String)
    requires
        b.wf(),
    ensures
        r@ == spec_with_cursor(b@),
{
    let ghost cur = b.cursor_position as int;
    let mut cs: Vec<char> = Vec::new();
    let mut i: usize = 0;
    while i < b.input.len()
        invariant
            b.wf(),
            cur == b.cursor_position as int,
            i <= b.input@.len(),
            cs@ == if i <= cur {
                b.input@.take(i as int)
            } else {
                b.input@.take(cur) + seq!['_'] + b.input@.subrange(cur, i as int)
            },
        decreases b.input@.len() - i,
    {
        if i == b.cursor_position {
            cs.push('_');
        }
        let c = b.input[i];
        cs.push(c);
        i = i + 1;
        proof {
            assert(cs@ =~= (if i <= cur {
                b.input@.take(i as int)
            } else {
                b.input@.take(cur) + seq!['_'] + b.input@.subrange(cur, i as int)
            }));
        }
    }
    if b.cursor_position == b.input.len() {
        cs.push('_');
    }
    proof {
        reveal_strlit("_");
        assert("_"@ =~= seq!['_']);
        assert(cs@ =~= spec_with_cursor(b@));
    }
    chars_to_string(&cs)
}

/// The label of one deck row.
fn build_deck_label(d: &Deck, expanded: bool, pre: &String) -> (r: String)
    ensures
        r@ == spec_deck_label(d@, pre@, expanded),
{
    let mut s = pre.clone();
    if expanded {
        s.append("v ");
    } else {
        s.append("> ");
    }
    let cards = d.get_cards();
    let ncards = dec_string(cards.len() as u128);
    s.append(ncards.as_str());
    s.append("/");
    let nsubs = dec_string(d.subdecks.len() as u128);
    s.append(nsubs.as_str());
    s.append(" ");
    s.append(d.name.as_str());
    proof {
        lemma_decks_view_len(d.subdecks@);
        assert(cards.deep_view().len() == spec_notes_cards(d@.notes).len());
        assert(s@ =~= spec_deck_label(d@, pre@, expanded));
    }
    s
}

/// The create row of a level.
fn build_create_row(parent: u128, pre: &String, mode: &Mode) -> (r: Row)
    requires
        mode_wf(mode@),
    ensures
        r@ == spec_create_row(parent, pre@, spec_mode_insert(mode@)),
{
    match mode {
        Mode::InsertDeck(id, buf) => {
            if *id == parent {
                let mut label = pre.clone();
                label.append(">> ");
                let wc = with_cursor_string(buf);
                label.append(wc.as_str());
                Row { label, target: RowTarget::AddToItem(parent) }
            } else {
                let mut label = pre.clone();
                label.append("[+]");
                Row { label, target: RowTarget::AddToItem(parent) }
            }
        },
        _ => {
            let mut label = pre.clone();
            label.append("[+]");
            Row { label, target: RowTarget::AddToItem(parent) }
        },
    }
}

/// The rows of the decks `v[i..]` of one level.
fn build_rows_list(v: &Vec<Deck>, i: usize, exp: &IdSet, mode: &Mode, pre: &String) -> (r: Vec<
    Row,
>)
    requires
        i <= v.len(),
        mode_wf(mode@),
    ensures
        rows_view(r@) == spec_rows_list(
            decks_view(v@).skip(i as int),
            exp@,
            spec_mode_insert(mode@),
            pre@,
        ),
    decreases v, v.len() - i, 0int,
{
    proof {
        lemma_decks_view_len(v@);
    }
    if i == v.len() {
        proof {
            assert(decks_view(v@).skip(i as int) =~= Seq::<DeckModel>::empty());
            assert(rows_view(Seq::<Row>::empty()) =~= Seq::<RowModel>::empty());
        }
        Vec::new()
    } else {
        proof {
            assert(decks_view(v@).skip(i as int)[0] == deck_view(v@[i as int]));
            assert(decks_view(v@).skip(i as int).drop_first() =~= decks_view(v@).skip(
                i as int + 1,
            ));
        }
        let ghost m = decks_view(v@).skip(i as int)[0];
        let d = &v[i];
        let expanded = exp.contains(d.uuid);
        let label = build_deck_label(d, expanded, pre);
        let mut out: Vec<Row> = Vec::new();
        let row = Row { label, target: RowTarget::DeckItem(d.uuid) };
        let ghost row_val = row;
        out.push(row);
        proof {
            assert(out@ =~= seq![row_val]);
            lemma_rows_view_len(out@);
            assert(rows_view(out@) =~= seq![row_val@]);
        }
        if expanded {
            let mut p2 = pre.clone();
            p2.append("  ");
            let mut sub = build_rows_level(&d.subdecks, exp, mode, d.uuid, &p2);
            let ghost out_pre = out@;
            let ghost sub_pre = sub@;
            out.append(&mut sub);
            proof {
                assert(out@ =~= out_pre + sub_pre);
                lemma_rows_view_concat(out_pre, sub_pre);
                assert(rows_view(out@) =~= spec_rows_deck(
                    m,
                    exp@,
                    spec_mode_insert(mode@),
                    pre@,
                ));
            }
        } else {
            proof {
                assert(rows_view(out@) =~= spec_rows_deck(
                    m,
                    exp@,
                    spec_mode_insert(mode@),
                    pre@,
                ));
            }
        }
        let ghost head_seq = out@;
        let mut tail = build_rows_list(v, i + 1, exp, mode, pre);
        let ghost tail_seq = tail@;
        out.append(&mut tail);
        proof {
            assert(out@ =~= head_seq + tail_seq);
            lemma_rows_view_concat(head_seq, tail_seq);
            assert(rows_view(out@) =~= spec_rows_list(
                decks_view(v@).skip(i as int),
                exp@,
                spec_mode_insert(mode@),
                pre@,
            ));
        }
        out
    }
}

/// The rows of one visible level: its decks' rows, then the create row.
fn build_rows_level(v: &Vec<Deck>, exp: &IdSet, mode: &Mode, parent: u128, pre: &String) -> (r:
    Vec<Row>)
    requires
        mode_wf(mode@),
    ensures
        rows_view(r@) == spec_rows_level(
            decks_view(v@),
            exp@,
            spec_mode_insert(mode@),
            parent,
            pre@,
        ),
    decreases v, v.len() + 1, 0int,
{
    proof {
        assert(decks_view(v@).skip(0) =~= decks_view(v@));
    }
    let mut out = build_rows_list(v, 0, exp, mode, pre);
    let ghost head_seq = out@;
    let create = build_create_row(parent, pre, mode);
    let ghost create_val = create;
    out.push(create);
    proof {
        assert(out@ =~= head_seq + seq![create_val]);
        lemma_rows_view_concat(head_seq, seq![create_val]);
        lemma_rows_view_len(seq![create_val]);
        assert(rows_view(seq![create_val]) =~= seq![create_val@]);
        assert(rows_view(out@) =~= spec_rows_level(
            decks_view(v@),
            exp@,
            spec_mode_insert(mode@),
            parent,
            pre@,
        ));
    }
    out
}

/// Stepping the selection per the up/down action: the first press selects
/// the first row; later presses move by one with wrap-around at both
/// ends. Other actions leave the selection alone.
pub open spec fn spec_list_selection(a: Action, sel: Option<int>, n: int) -> Option<int> {
    match sel {
        None => Some(0),
        Some(i) => match a {
            Action::Up => Some((i + n - 1) % n),
            Action::Down => Some((i + 1) % n),
            _ => Some(i),
        },
    }
}

/// Moves the selection for an up/down press over `num_options` rows.
pub fn update_list_selection(action: &Action, selected: &mut Option<usize>, num_options: usize)
    requires
        num_options > 0,
        match *old(selected) {
            Some(i) => i < num_options,
            None => true,
        },
    ensures
        ({
            let r = spec_list_selection(*action, match *old(selected) {
                Some(i) => Some(i as int),
                None => None,
            }, num_options as int);
            match (*final(selected), r) {
                (Some(a), Some(b)) => a as int == b && a < num_options,
                (None, None) => true,
                _ => false,
            }
        }),
{
    match *selected {
        None => {
            *selected = Some(0);
        },
        Some(i) => {
            match action {
                Action::Up => {
                    let n = num_options;
                    if i == 0 {
                        *selected = Some(n - 1);
                        proof {
                            lemma_mod_multiples_vanish(1, n - 1, n as int);
                            lemma_small_mod((n - 1) as nat, n as nat);
                        }
                    } else {
                        *selected = Some(i - 1);
                        proof {
                            lemma_mod_multiples_vanish(1, i - 1, n as int);
                            lemma_small_mod((i - 1) as nat, n as nat);
                        }
                    }
                },
                Action::Down => {
                    if i + 1 >= num_options {
                        *selected = Some(0);
                        proof {
                            lemma_mod_multiples_vanish(1, 0, num_options as int);
                            lemma_small_mod(0, num_options as nat);
                        }
                    } else {
                        *selected = Some(i + 1);
                        proof {
                            lemma_small_mod((i + 1) as nat, num_options as nat);
                        }
                    }
                },
                _ => {},
            }
        },
    }
}

/// The number of rows pointing at the deck with the given id.
pub open spec fn count_rows(rows: Seq<RowModel>, id: u128) -> nat
    decreases rows.len(),
{
    if rows.len() == 0 {
        0
    } else {
        (if rows[0].target == RowTarget::DeckItem(id) {
            1nat
        } else {
            0nat
        }) + count_rows(rows.drop_first(), id)
    }
}

proof fn lemma_count_concat(a: Seq<RowModel>, b: Seq<RowModel>, id: u128)
    ensures
        count_rows(a + b, id) == count_rows(a, id) + count_rows(b, id),
    decreases a.len(),
{
    if a.len() == 0 {
        assert(a + b =~= b);
    } else {
        assert((a + b)[0] == a[0]);
        assert((a + b).drop_first() =~= a.drop_first() + b);
        lemma_count_concat(a.drop_first(), b, id);
    }
}

/// How often a deck id is visible in a tree: the deck itself when its id
/// matches, plus, when it is expanded, the visible occurrences below it.
/// With the full set as expansion set this counts every occurrence.
pub open spec fn tc_deck(m: DeckModel, exp: Set<u128>, id: u128) -> nat
    decreases m, 1int,
{
    (if m.id == id {
        1nat
    } else {
        0nat
    }) + if exp.contains(m.id) {
        tc_list(m.subdecks, exp, id)
    } else {
        0nat
    }
}

pub open spec fn tc_list(s: Seq<DeckModel>, exp: Set<u128>, id: u128) -> nat
    decreases s, 0int,
{
    if s.len() == 0 {
        0
    } else {
        tc_deck(s[0], exp, id) + tc_list(s.drop_first(), exp, id)
    }
}

/// Every id occurs at most once in the forest.
pub open spec fn unique_ids(s: Seq<DeckModel>) -> bool {
    forall|id: u128| tc_list(s, Set::full(), id) <= 1
}

proof fn lemma_tc_list_push(s: Seq<DeckModel>, x: DeckModel, exp: Set<u128>, id: u128)
    ensures
        tc_list(s.push(x), exp, id) == tc_list(s, exp, id) + tc_deck(x, exp, id),
{
    lemma_tc_list_split(s.push(x), s.len() as int, exp, id);
    assert(s.push(x).take(s.len() as int) =~= s);
    assert(s.push(x).skip(s.len() as int + 1) =~= Seq::<DeckModel>::empty());
    assert(tc_list(Seq::<DeckModel>::empty(), exp, id) == 0);
}

proof fn lemma_insert_count_under(m: DeckModel, parent: u128, d: DeckModel, id: u128)
    ensures
        match spec_insert_under(m, parent, d) {
            Some(m2) => tc_deck(m2, Set::full(), id) == tc_deck(m, Set::full(), id) + tc_deck(
                d,
                Set::full(),
                id,
            ),
            None => true,
        },
    decreases m, 0int,
{
    if m.id == parent {
        let d2 = DeckModel { parent: Some(spec_qualified_name(m)), ..d };
        lemma_tc_list_push(m.subdecks, d2, Set::full(), id);
        assert(tc_deck(d2, Set::full(), id) == tc_deck(d, Set::full(), id));
        assert(Set::<u128>::full().contains(m.id));
    } else {
        lemma_insert_count_in(m.subdecks, parent, d, id);
        match spec_insert_in(m.subdecks, parent, d) {
            Some(s2) => {
                assert(Set::<u128>::full().contains(m.id));
            },
            None => {},
        }
    }
}

proof fn lemma_insert_count_in(s: Seq<DeckModel>, parent: u128, d: DeckModel, id: u128)
    ensures
        match spec_insert_in(s, parent, d) {
            Some(s2) => tc_list(s2, Set::full(), id) == tc_list(s, Set::full(), id) + tc_deck(
                d,
                Set::full(),
                id,
            ),
            None => true,
        },
    decreases s, 1int,
{
    if s.len() > 0 {
        lemma_insert_count_under(s[0], parent, d, id);
        match spec_insert_under(s[0], parent, d) {
            Some(m2) => {
                let s2 = seq![m2] + s.drop_first();
                assert(s2[0] == m2);
                assert(s2.drop_first() =~= s.drop_first());
            },
            None => {
                lemma_insert_count_in(s.drop_first(), parent, d, id);
                match spec_insert_in(s.drop_first(), parent, d) {
                    Some(r) => {
                        let s2 = seq![s[0]] + r;
                        assert(s2[0] == s[0]);
                        assert(s2.drop_first() =~= r);
                    },
                    None => {},
                }
            },
        }
    }
}

/// Creating a deck whose id is fresh (and which has no children of its
/// own, as a newly named deck has) keeps the forest's ids unique,
/// wherever it lands.
pub proof fn lemma_add_deck_to_preserves_unique(c: CollectionModel, parent: u128, d: DeckModel)
    requires
        unique_ids(c.decks),
        d.subdecks.len() == 0,
        tc_list(c.decks, Set::full(), d.id) == 0,
    ensures
        unique_ids(spec_add_deck_to(c, parent, d).decks),
{
    let s2 = spec_add_deck_to(c, parent, d).decks;
    assert forall|id: u128| tc_list(s2, Set::full(), id) <= 1 by {
        assert(tc_list(d.subdecks, Set::full(), id) == 0);
        assert(tc_deck(d, Set::full(), id) == (if d.id == id {
            1nat
        } else {
            0nat
        }));
        if parent == c.id {
            lemma_tc_list_push(c.decks, d, Set::full(), id);
        } else {
            lemma_insert_count_in(c.decks, parent, d, id);
        }
        assert(tc_list(c.decks, Set::full(), id) <= 1);
    }
}

proof fn lemma_note_tc_under(m: DeckModel, nid: u128, n: NoteModel, exp: Set<u128>, id: u128)
    ensures
        match spec_note_under(m, nid, n) {
            Some(m2) => tc_deck(m2, exp, id) == tc_deck(m, exp, id),
            None => true,
        },
    decreases m, 0int,
{
    if m.id == nid {
    } else {
        lemma_note_tc_in(m.subdecks, nid, n, exp, id);
    }
}

proof fn lemma_note_tc_in(s: Seq<DeckModel>, nid: u128, n: NoteModel, exp: Set<u128>, id: u128)
    ensures
        match spec_note_in(s, nid, n) {
            Some(s2) => tc_list(s2, exp, id) == tc_list(s, exp, id),
            None => true,
        },
    decreases s, 1int,
{
    if s.len() > 0 {
        lemma_note_tc_under(s[0], nid, n, exp, id);
        match spec_note_under(s[0], nid, n) {
            Some(m2) => {
                let s2 = seq![m2] + s.drop_first();
                assert(s2[0] == m2);
                assert(s2.drop_first() =~= s.drop_first());
            },
            None => {
                lemma_note_tc_in(s.drop_first(), nid, n, exp, id);
                match spec_note_in(s.drop_first(), nid, n) {
                    Some(r) => {
                        let s2 = seq![s[0]] + r;
                        assert(s2[0] == s[0]);
                        assert(s2.drop_first() =~= r);
                    },
                    None => {},
                }
            },
        }
    }
}

/// Adding a note never touches the deck ids.
pub proof fn lemma_add_note_preserves_unique(s: Seq<DeckModel>, nid: u128, n: NoteModel)
    requires
        unique_ids(s),
    ensures
        match spec_note_in(s, nid, n) {
            Some(s2) => unique_ids(s2),
            None => true,
        },
{
    match spec_note_in(s, nid, n) {
        Some(s2) => {
            assert forall|id: u128| tc_list(s2, Set::full(), id) <= 1 by {
                lemma_note_tc_in(s, nid, n, Set::full(), id);
                assert(tc_list(s, Set::full(), id) <= 1);
            }
        },
        None => {},
    }
}

proof fn lemma_remove_first_tc_le(s: Seq<DeckModel>, rid: u128, exp: Set<u128>, id: u128)
    ensures
        tc_list(remove_first_at_level(s, rid), exp, id) <= tc_list(s, exp, id),
    decreases s.len(),
{
    if s.len() > 0 {
        if s[0].id == rid {
        } else {
            lemma_remove_first_tc_le(s.drop_first(), rid, exp, id);
            let s2 = seq![s[0]] + remove_first_at_level(s.drop_first(), rid);
            assert(s2[0] == s[0]);
            assert(s2.drop_first() =~= remove_first_at_level(s.drop_first(), rid));
        }
    }
}

proof fn lemma_remove_tc_le_deck(m: DeckModel, rid: u128, exp: Set<u128>, id: u128)
    ensures
        tc_deck(remove_inside(m, rid), exp, id) <= tc_deck(m, exp, id),
    decreases m, 0int,
{
    lemma_remove_tc_le_in(m.subdecks, rid, exp, id);
}

proof fn lemma_remove_tc_le_in(s: Seq<DeckModel>, rid: u128, exp: Set<u128>, id: u128)
    ensures
        tc_list(spec_remove_deck_in(s, rid), exp, id) <= tc_list(s, exp, id),
    decreases s, 2int,
{
    if has_at_level(s, rid) {
        lemma_remove_first_tc_le(s, rid, exp, id);
    } else {
        lemma_remove_each_tc_le(s, rid, exp, id);
    }
}

proof fn lemma_remove_each_tc_le(s: Seq<DeckModel>, rid: u128, exp: Set<u128>, id: u128)
    ensures
        tc_list(remove_inside_each(s, rid), exp, id) <= tc_list(s, exp, id),
    decreases s, 1int,
{
    if s.len() > 0 {
        lemma_remove_tc_le_deck(s[0], rid, exp, id);
        lemma_remove_each_tc_le(s.drop_first(), rid, exp, id);
        let s2 = seq![remove_inside(s[0], rid)] + remove_inside_each(s.drop_first(), rid);
        assert(s2[0] == remove_inside(s[0], rid));
        assert(s2.drop_first() =~= remove_inside_each(s.drop_first(), rid));
    }
}

/// Removing a subtree never duplicates an id.
pub proof fn lemma_remove_preserves_unique(s: Seq<DeckModel>, rid: u128)
    requires
        unique_ids(s),
    ensures
        unique_ids(spec_remove_deck_in(s, rid)),
{
    assert forall|id: u128| tc_list(spec_remove_deck_in(s, rid), Set::full(), id) <= 1 by {
        lemma_remove_tc_le_in(s, rid, Set::full(), id);
        assert(tc_list(s, Set::full(), id) <= 1);
    }
}

/// The deck a path of child indices leads to.
pub open spec fn deck_at(s: Seq<DeckModel>, path: Seq<int>) -> Option<DeckModel>
    decreases path.len(),
{
    if path.len() == 0 {
        None
    } else {
        let i = path[0];
        if 0 <= i < s.len() {
            if path.len() == 1 {
                Some(s[i])
            } else {
                deck_at(s[i].subdecks, path.drop_first())
            }
        } else {
            None
        }
    }
}

/// Whether every proper ancestor on the path is expanded.
pub open spec fn ancestors_expanded(s: Seq<DeckModel>, path: Seq<int>, exp: Set<u128>) -> bool
    decreases path.len(),
{
    if path.len() <= 1 {
        true
    } else {
        let i = path[0];
        0 <= i < s.len() && exp.contains(s[i].id) && ancestors_expanded(
            s[i].subdecks,
            path.drop_first(),
            exp,
        )
    }
}

proof fn lemma_count_level(
    s: Seq<DeckModel>,
    exp: Set<u128>,
    ins: Option<(u128, InputModel)>,
    parent: u128,
    pre: Seq<char>,
    id: u128,
)
    ensures
        count_rows(spec_rows_level(s, exp, ins, parent, pre), id) == tc_list(s, exp, id),
    decreases s, 2int,
{
    lemma_count_list(s, exp, ins, pre, id);
    let create = seq![spec_create_row(parent, pre, ins)];
    lemma_count_concat(spec_rows_list(s, exp, ins, pre), create, id);
    assert(create.drop_first() =~= Seq::<RowModel>::empty());
    assert(count_rows(Seq::<RowModel>::empty(), id) == 0);
    assert(count_rows(create, id) == 0);
}

proof fn lemma_count_list(
    s: Seq<DeckModel>,
    exp: Set<u128>,
    ins: Option<(u128, InputModel)>,
    pre: Seq<char>,
    id: u128,
)
    ensures
        count_rows(spec_rows_list(s, exp, ins, pre), id) == tc_list(s, exp, id),
    decreases s, 1int,
{
    if s.len() > 0 {
        lemma_count_deck(s[0], exp, ins, pre, id);
        lemma_count_list(s.drop_first(), exp, ins, pre, id);
        lemma_count_concat(
            spec_rows_deck(s[0], exp, ins, pre),
            spec_rows_list(s.drop_first(), exp, ins, pre),
            id,
        );
    }
}

proof fn lemma_count_deck(
    m: DeckModel,
    exp: Set<u128>,
    ins: Option<(u128, InputModel)>,
    pre: Seq<char>,
    id: u128,
)
    ensures
        count_rows(spec_rows_deck(m, exp, ins, pre), id) == tc_deck(m, exp, id),
    decreases m, 3int,
{
    let own = seq![
        RowModel {
            label: spec_deck_label(m, pre, exp.contains(m.id)),
            target: RowTarget::DeckItem(m.id),
        },
    ];
    assert(own.drop_first() =~= Seq::<RowModel>::empty());
    assert(count_rows(Seq::<RowModel>::empty(), id) == 0);
    assert(count_rows(own, id) == (if m.id == id {
        1nat
    } else {
        0nat
    }));
    if exp.contains(m.id) {
        lemma_count_level(m.subdecks, exp, ins, m.id, pre + "  "@, id);
        lemma_count_concat(own, spec_rows_level(m.subdecks, exp, ins, m.id, pre + "  "@), id);
    } else {
        lemma_count_concat(own, Seq::<RowModel>::empty(), id);
    }
}

/// Splitting the visible count of a level at one of its decks.
proof fn lemma_tc_list_split(s: Seq<DeckModel>, i: int, exp: Set<u128>, id: u128)
    requires
        0 <= i < s.len(),
    ensures
        tc_list(s, exp, id) == tc_list(s.take(i), exp, id) + tc_deck(s[i], exp, id) + tc_list(
            s.skip(i + 1),
            exp,
            id,
        ),
    decreases i,
{
    if i == 0 {
        assert(s.take(0) =~= Seq::<DeckModel>::empty());
        assert(tc_list(Seq::<DeckModel>::empty(), exp, id) == 0);
        assert(s.skip(1) =~= s.drop_first());
    } else {
        lemma_tc_list_split(s.drop_first(), i - 1, exp, id);
        assert(s.drop_first()[i - 1] == s[i]);
        assert(s.drop_first().take(i - 1) =~= s.take(i).drop_first());
        assert(s.drop_first().skip(i) =~= s.skip(i + 1));
        assert(s.take(i)[0] == s[0]);
        assert(tc_list(s.take(i), exp, id) == tc_deck(s[0], exp, id) + tc_list(
            s.take(i).drop_first(),
            exp,
            id,
        ));
    }
}

/// Fewer expansions never show more occurrences than the full count.
proof fn lemma_tc_le_full_deck(m: DeckModel, exp: Set<u128>, id: u128)
    ensures
        tc_deck(m, exp, id) <= tc_deck(m, Set::full(), id),
    decreases m, 1int,
{
    lemma_tc_le_full_list(m.subdecks, exp, id);
}

proof fn lemma_tc_le_full_list(s: Seq<DeckModel>, exp: Set<u128>, id: u128)
    ensures
        tc_list(s, exp, id) <= tc_list(s, Set::full(), id),
    decreases s, 0int,
{
    if s.len() > 0 {
        lemma_tc_le_full_deck(s[0], exp, id);
        lemma_tc_le_full_list(s.drop_first(), exp, id);
    }
}

/// A path that reaches a deck witnesses at least one occurrence of its id.
proof fn lemma_deck_at_ge_one(s: Seq<DeckModel>, path: Seq<int>, d: DeckModel)
    requires
        deck_at(s, path) == Some(d),
    ensures
        tc_list(s, Set::full(), d.id) >= 1,
    decreases path.len(),
{
    let i = path[0];
    lemma_tc_list_split(s, i, Set::full(), d.id);
    if path.len() == 1 {
        assert(tc_deck(s[i], Set::full(), d.id) >= 1);
    } else {
        lemma_deck_at_ge_one(s[i].subdecks, path.drop_first(), d);
        assert(Set::<u128>::full().contains(s[i].id));
        assert(tc_deck(s[i], Set::full(), d.id) >= 1);
    }
}

/// The visible count of a deck reached by a path: one when every
/// ancestor is expanded, zero otherwise — given at most one occurrence
/// of the id in the forest.
proof fn lemma_tc_of_path(s: Seq<DeckModel>, exp: Set<u128>, path: Seq<int>, d: DeckModel)
    requires
        deck_at(s, path) == Some(d),
        tc_list(s, Set::full(), d.id) <= 1,
    ensures
        tc_list(s, exp, d.id) == if ancestors_expanded(s, path, exp) {
            1nat
        } else {
            0nat
        },
    decreases path.len(),
{
    let id = d.id;
    let i = path[0];
    lemma_tc_list_split(s, i, Set::full(), id);
    lemma_tc_list_split(s, i, exp, id);
    // the rest of the level holds no occurrence of the id
    if path.len() == 1 {
        assert(tc_deck(s[i], Set::full(), id) >= 1);
    } else {
        lemma_deck_at_ge_one(s[i].subdecks, path.drop_first(), d);
        assert(Set::<u128>::full().contains(s[i].id));
        assert(tc_deck(s[i], Set::full(), id) >= 1);
    }
    assert(tc_list(s.take(i), Set::full(), id) == 0);
    assert(tc_list(s.skip(i + 1), Set::full(), id) == 0);
    lemma_tc_le_full_list(s.take(i), exp, id);
    lemma_tc_le_full_list(s.skip(i + 1), exp, id);
    assert(tc_list(s, exp, id) == tc_deck(s[i], exp, id));
    if path.len() == 1 {
        assert(s[i].id == id);
        assert(tc_deck(s[i], Set::full(), id) == 1 + tc_list(s[i].subdecks, Set::full(), id));
        assert(tc_list(s[i].subdecks, Set::full(), id) == 0);
        lemma_tc_le_full_list(s[i].subdecks, exp, id);
        assert(tc_deck(s[i], exp, id) == 1);
        assert(ancestors_expanded(s, path, exp));
    } else {
        if s[i].id == id {
            assert(Set::<u128>::full().contains(s[i].id));
            assert(tc_deck(s[i], Set::full(), id) >= 2);
            assert(false);
        }
        if exp.contains(s[i].id) {
            assert(Set::<u128>::full().contains(s[i].id));
            assert(tc_list(s[i].subdecks, Set::full(), id) <= 1);
            lemma_tc_of_path(s[i].subdecks, exp, path.drop_first(), d);
            assert(tc_deck(s[i], exp, id) == tc_list(s[i].subdecks, exp, id));
        } else {
            assert(tc_deck(s[i], exp, id) == 0);
            assert(!ancestors_expanded(s, path, exp));
        }
    }
}

/// A deck reached by a path of child indices appears in the flattened
/// row list exactly once when every ancestor on its path is in the
/// expansion set, and not at all otherwise — over a forest whose ids are
/// unique.
pub proof fn lemma_flatten_visibility(
    c: CollectionModel,
    exp: Set<u128>,
    ins: Option<(u128, InputModel)>,
    path: Seq<int>,
    d: DeckModel,
)
    requires
        unique_ids(c.decks),
        deck_at(c.decks, path) == Some(d),
    ensures
        count_rows(spec_rows(c, exp, ins), d.id) == if ancestors_expanded(
            c.decks,
            path,
            exp,
        ) {
            1nat
        } else {
            0nat
        },
{
    lemma_count_level(c.decks, exp, ins, c.id, Seq::empty(), d.id);
    lemma_tc_of_path(c.decks, exp, path, d);
}

/// The selection after a number of consecutive down presses, starting
/// from no selection.
pub open spec fn sel_after_downs(k: nat, n: int) -> Option<int>
    decreases k,
{
    if k == 0 {
        None
    } else {
        spec_list_selection(Action::Down, sel_after_downs((k - 1) as nat, n), n)
    }
}

/// Over a non-empty row list, the first down press selects the first row
/// and each further press moves one row with wrap-around: after `k`
/// presses the selection sits at `(k - 1) mod n`. One more up press from
/// the first row wraps to the last.
pub proof fn lemma_selection_walk(k: nat, n: int)
    requires
        n >= 1,
        k >= 1,
    ensures
        sel_after_downs(k, n) == Some((k - 1) as int % n),
        spec_list_selection(Action::Up, Some(0), n) == Some(n - 1),
    decreases k,
{
    lemma_small_mod((n - 1) as nat, n as nat);
    if k == 1 {
        lemma_small_mod(0, n as nat);
    } else {
        lemma_selection_walk((k - 1) as nat, n);
        let a = (k - 2) as int;
        let r = a % n;
        let q = a / n;
        vstd::arithmetic::div_mod::lemma_fundamental_div_mod(a, n);
        assert(a + 1 == n * q + (r + 1));
        lemma_mod_multiples_vanish(q, r + 1, n);
        if r + 1 < n {
            lemma_small_mod((r + 1) as nat, n as nat);
        } else {
            lemma_mod_multiples_vanish(1, 0, n);
            lemma_small_mod(0, n as nat);
        }
    }
}

/// The index of the last create row, if any row is one.
pub open spec fn last_add_index(v: Seq<RowModel>) -> Option<int>
    decreases v.len(),
{
    if v.len() == 0 {
        None
    } else if v.last().target is AddToItem {
        Some(v.len() - 1)
    } else {
        last_add_index(v.drop_last())
    }
}

/// The id a row points at, whichever kind it is.
pub open spec fn target_id_of(t: RowTarget) -> u128 {
    match t {
        RowTarget::DeckItem(id) => id,
        RowTarget::AddToItem(id) => id,
    }
}

/// A selection clamped against a new row count: an index past the end
/// moves to the last row.
pub open spec fn spec_clamp_sel(sel: Option<int>, n: int) -> Option<int> {
    match sel {
        None => None,
        Some(i) => if i < n {
            Some(i)
        } else {
            Some(n - 1)
        },
    }
}

/// The deck the selection points at: the id of the selected row's target
/// when a deck with that id exists in the collection.
pub open spec fn spec_selected_deck_id(
    rows: Seq<RowModel>,
    sel: Option<int>,
    c: CollectionModel,
) -> Option<u128> {
    match sel {
        None => None,
        Some(i) => if 0 <= i < rows.len() {
            if contains_id(c.decks, target_id_of(rows[i].target)) {
                Some(target_id_of(rows[i].target))
            } else {
                None
            }
        } else {
            None
        },
    }
}

/// A deck as `Deck::new` builds it: named, empty, unattached.
pub open spec fn new_deck_model(name: Seq<char>, id: u128) -> DeckModel {
    DeckModel { name, id, subdecks: Seq::empty(), notes: Seq::empty(), parent: None }
}

/// An empty entry buffer.
pub open spec fn empty_input() -> InputModel {
    InputModel { text: Seq::empty(), cursor: 0 }
}

/// The row list of a state, the selection clamped against it, and the
/// deck that selection resolves to.
pub open spec fn pre_rows(h: HomeModel, c: CollectionModel) -> Seq<RowModel> {
    spec_rows(c, h.expanded, spec_mode_insert(h.mode))
}

pub open spec fn clamped_sel(h: HomeModel, c: CollectionModel) -> Option<int> {
    spec_clamp_sel(h.selected, pre_rows(h, c).len() as int)
}

pub open spec fn sel_deck_id(h: HomeModel, c: CollectionModel) -> Option<u128> {
    spec_selected_deck_id(pre_rows(h, c), clamped_sel(h, c), c)
}

/// Mathematical value of the home screen state.
#[verifier::ext_equal]
pub struct HomeModel {
    pub selected: Option<int>,
    pub expanded: Set<u128>,
    pub mode: ModeModel,
}

/// The deck browser: the selection, the expansion set, and the mode.
#[derive(Debug, PartialEq, Eq)]
pub struct HomeScreen {
    pub selected: Option<usize>,
    pub expanded: IdSet,
    pub mode: Mode,
}

impl View for HomeScreen {
    type V = HomeModel;

    open spec fn view(&self) -> HomeModel {
        HomeModel {
            selected: match self.selected {
                Some(i) => Some(i as int),
                None => None,
            },
            expanded: self.expanded@,
            mode: self.mode@,
        }
    }
}

impl HomeScreen {
    pub open spec fn wf(&self) -> bool {
        self.expanded.wf() && mode_wf(self.mode@)
    }

    pub fn new() -> (r: Self)
        ensures
            r@.selected is None,
            r@.expanded == Set::<u128>::empty(),
            r@.mode == ModeModel::Normal(None::<u128>),
            r.wf(),
    {
        HomeScreen { selected: None, expanded: IdSet::new(), mode: Mode::Normal(None) }
    }

    /// The current display rows: the deck tree gated by the expansion
    /// set, with the create rows, and the live entry row when a deck
    /// name is being entered.
    pub fn build_deck_list_items(&self, collection: &Collection) -> (r: Vec<Row>)
        requires
            self.wf(),
        ensures
            rows_view(r@) == pre_rows(self@, collection@),
            r@.len() >= 1,
    {
        let pre = String::new();
        let r = build_rows_level(
            &collection.decks,
            &self.expanded,
            &self.mode,
            collection.uuid,
            &pre,
        );
        proof {
            lemma_rows_view_len(r@);
            assert(pre@ =~= Seq::<char>::empty());
        }
        r
    }
}

/// The deck the selection points at, resolved against the given rows.
fn selected_deck_id(rows: &Vec<Row>, selected: &Option<usize>, collection: &Collection) -> (r:
    Option<u128>)
    ensures
        r == spec_selected_deck_id(rows_view(rows@), match *selected {
            Some(i) => Some(i as int),
            None => None,
        }, collection@),
{
    proof {
        lemma_rows_view_len(rows@);
    }
    match selected {
        None => None,
        Some(i) => {
            if *i < rows.len() {
                let id = match rows[*i].target {
                    RowTarget::DeckItem(id) => id,
                    RowTarget::AddToItem(id) => id,
                };
                match collection.find_deck(id) {
                    Some(_) => Some(id),
                    None => None,
                }
            } else {
                None
            }
        },
    }
}

/// The browse-mode transition table, relating the state before an action
/// to the state after it and the follow-up command. The selection is
/// first re-clamped against the current row count; `sel` and `sid` below
/// are the clamped selection and the deck it resolves to.
pub open spec fn spec_update_normal_ok(
    h: HomeModel,
    c: CollectionModel,
    a: Action,
    h2: HomeModel,
    c2: CollectionModel,
    ret: Option<Action>,
) -> bool {
    let rows = pre_rows(h, c);
    let sel = clamped_sel(h, c);
    let sid = sel_deck_id(h, c);
    match a {
        Action::Char(ch) => if ch == 'n' {
            c2 == c && ret is None && h2 == (HomeModel {
                selected: sel,
                mode: if sid is Some {
                    ModeModel::InsertNote(
                        InsertNoteModel {
                            front: empty_input(),
                            back: empty_input(),
                            focused_front: true,
                            completed: false,
                        },
                    )
                } else {
                    h.mode
                },
                ..h
            })
        } else if ch == 's' {
            let parent = match sid {
                Some(id) => id,
                None => c.id,
            };
            c2 == c && ret is None && h2 == (HomeModel {
                selected: sel,
                expanded: h.expanded.insert(parent),
                mode: ModeModel::InsertDeck(parent, empty_input()),
            })
        } else if ch == 'a' {
            c2 == c && ret is None && h2 == (HomeModel {
                selected: sel,
                mode: ModeModel::InsertDeck(c.id, empty_input()),
                ..h
            })
        } else if ch == 'q' {
            c2 == c && ret == Some(Action::Quit) && h2 == (HomeModel { selected: sel, ..h })
        } else if ch == 'D' {
            let removed = match sel {
                Some(i) => match rows[i].target {
                    RowTarget::DeckItem(id) => if contains_id(c.decks, id) {
                        Some(id)
                    } else {
                        None
                    },
                    RowTarget::AddToItem(_) => None,
                },
                None => None,
            };
            ret is None && h2 == (HomeModel { selected: sel, ..h }) && c2 == (match removed {
                Some(id) => CollectionModel {
                    decks: spec_remove_deck_in(c.decks, id),
                    ..c
                },
                None => c,
            })
        } else {
            c2 == c && ret is None && h2 == (HomeModel { selected: sel, ..h })
        },
        Action::Up | Action::Down => {
            let sel2 = spec_list_selection(a, sel, rows.len() as int);
            c2 == c && ret is None && h2 == (HomeModel {
                selected: sel2,
                mode: ModeModel::Normal(spec_selected_deck_id(rows, sel2, c)),
                ..h
            })
        },
        Action::Space => {
            let exp2 = match sel {
                Some(i) => match rows[i].target {
                    RowTarget::DeckItem(id) => if h.expanded.contains(id) {
                        h.expanded.remove(id)
                    } else {
                        h.expanded.insert(id)
                    },
                    RowTarget::AddToItem(_) => h.expanded,
                },
                None => h.expanded,
            };
            c2 == c && ret is None && h2 == (HomeModel { selected: sel, expanded: exp2, ..h })
        },
        Action::Enter => c2 == c && h2 == (HomeModel { selected: sel, ..h }) && ret == (match sid {
            Some(id) => Some(Action::Screen(Screen::Practice(id))),
            None => None,
        }),
        _ => c2 == c && ret is None && h2 == (HomeModel { selected: sel, ..h }),
    }
}

/// The deck-name entry transition table. Characters and cursor moves edit
/// the buffer; `Enter` with a non-empty name creates the deck under its
/// parent with an arbitrary fresh id and asks to persist; an empty name
/// and `Esc` discard the entry.
pub open spec fn spec_update_insert_ok(
    h: HomeModel,
    c: CollectionModel,
    a: Action,
    uuid: u128,
    buf: InputModel,
    h2: HomeModel,
    c2: CollectionModel,
    ret: Option<Action>,
) -> bool {
    let sel = clamped_sel(h, c);
    let sid = sel_deck_id(h, c);
    match a {
        Action::Char(ch) => c2 == c && ret is None && h2 == (HomeModel {
            selected: sel,
            mode: ModeModel::InsertDeck(uuid, push_model(buf, ch)),
            ..h
        }),
        Action::Space => c2 == c && ret is None && h2 == (HomeModel {
            selected: sel,
            mode: ModeModel::InsertDeck(uuid, push_model(buf, ' ')),
            ..h
        }),
        Action::Backspace => c2 == c && ret is None && h2 == (HomeModel {
            selected: sel,
            mode: ModeModel::InsertDeck(uuid, pop_model(buf)),
            ..h
        }),
        Action::Left => c2 == c && ret is None && h2 == (HomeModel {
            selected: sel,
            mode: ModeModel::InsertDeck(uuid, left_model(buf)),
            ..h
        }),
        Action::Right => c2 == c && ret is None && h2 == (HomeModel {
            selected: sel,
            mode: ModeModel::InsertDeck(uuid, right_model(buf)),
            ..h
        }),
        Action::Enter => h2 == (HomeModel {
            selected: sel,
            mode: ModeModel::Normal(sid),
            ..h
        }) && if buf.text.len() > 0 {
            ret == Some(Action::Save) && (exists|id: u128|
                c2 == spec_add_deck_to(c, uuid, #[trigger] new_deck_model(buf.text, id)))
        } else {
            c2 == c && ret is None
        },
        Action::Esc => c2 == c && ret is None && h2 == (HomeModel {
            selected: sel,
            mode: ModeModel::Normal(sid),
            ..h
        }),
        _ => c2 == c && ret is None && h2 == (HomeModel {
            selected: sel,
            mode: ModeModel::InsertDeck(uuid, buf),
            ..h
        }),
    }
}

/// The note-entry transition: the action edits the entry state; when it
/// finishes the entry, the mode returns to browsing, and only a commit
/// puts the note into the selected deck and asks to persist — a cancel
/// discards the buffers with no mutation and no persist request. When no
/// deck is selected (the entry has lost its target), the entry is
/// abandoned.
pub open spec fn spec_update_note_ok(
    h: HomeModel,
    c: CollectionModel,
    a: Action,
    st: InsertNoteModel,
    h2: HomeModel,
    c2: CollectionModel,
    ret: Option<Action>,
) -> bool {
    let sel = clamped_sel(h, c);
    let sid = sel_deck_id(h, c);
    match sid {
        None => c2 == c && ret is None && h2 == (HomeModel {
            selected: sel,
            mode: ModeModel::Normal(None),
            ..h
        }),
        Some(id) => {
            let step = spec_note_insert_step(st, a);
            if step.0.completed {
                h2 == (HomeModel { selected: sel, mode: ModeModel::Normal(sid), ..h }) && (
                match step.1 {
                    Some(nm) => ret == Some(Action::Save) && c2 == (match spec_note_in(
                        c.decks,
                        id,
                        nm,
                    ) {
                        Some(s2) => CollectionModel { decks: s2, ..c },
                        None => c,
                    }),
                    None => ret is None && c2 == c,
                })
            } else {
                c2 == c && ret is None && h2 == (HomeModel {
                    selected: sel,
                    mode: ModeModel::InsertNote(step.0),
                    ..h
                })
            }
        },
    }
}

/// The whole transition table, dispatching on the mode.
pub open spec fn spec_update_ok(
    h: HomeModel,
    c: CollectionModel,
    a: Action,
    h2: HomeModel,
    c2: CollectionModel,
    ret: Option<Action>,
) -> bool {
    match h.mode {
        ModeModel::Normal(_) => spec_update_normal_ok(h, c, a, h2, c2, ret),
        ModeModel::InsertDeck(uuid, buf) => spec_update_insert_ok(
            h,
            c,
            a,
            uuid,
            buf,
            h2,
            c2,
            ret,
        ),
        ModeModel::InsertNote(st) => spec_update_note_ok(h, c, a, st, h2, c2, ret),
    }
}

impl HomeScreen {
    /// Re-clamps the selection against the current row count.
    fn clamp_selection(&mut self, n: usize)
        requires
            n >= 1,
        ensures
            final(self).selected == match old(self).selected {
                None => None::<usize>,
                Some(i) => if i < n {
                    Some(i)
                } else {
                    Some((n - 1) as usize)
                },
            },
            final(self).expanded == old(self).expanded,
            final(self).mode == old(self).mode,
    {
        match self.selected {
            Some(i) => {
                if i >= n {
                    self.selected = Some(n - 1);
                }
            },
            None => {},
        }
    }

    /// Moves the selection onto the create row, so that the live entry
    /// row stays highlighted while a deck name is being entered. With
    /// several create rows visible, the last one wins; without any, the
    /// selection stays put.
    pub fn select_add_item(&mut self, rows: &Vec<Row>)
        ensures
            final(self).expanded == old(self).expanded,
            final(self).mode == old(self).mode,
            final(self).selected == match last_add_index(rows_view(rows@)) {
                Some(k) => Some(k as usize),
                None => old(self).selected,
            },
    {
        proof {
            lemma_rows_view_len(rows@);
        }
        let ghost v = rows_view(rows@);
        let mut i: usize = 0;
        while i < rows.len()
            invariant
                i <= rows@.len(),
                v == rows_view(rows@),
                v.len() == rows@.len(),
                forall|k: int| 0 <= k < rows@.len() ==> #[trigger] v[k] == rows@[k]@,
                self.expanded == old(self).expanded,
                self.mode == old(self).mode,
                self.selected == match last_add_index(v.take(i as int)) {
                    Some(k) => Some(k as usize),
                    None => old(self).selected,
                },
            decreases rows@.len() - i,
        {
            proof {
                assert(v.take(i as int + 1).drop_last() =~= v.take(i as int));
                assert(v.take(i as int + 1).last() == v[i as int]);
            }
            match rows[i].target {
                RowTarget::AddToItem(_) => {
                    self.selected = Some(i);
                },
                RowTarget::DeckItem(_) => {},
            }
            i = i + 1;
        }
        proof {
            assert(v.take(rows@.len() as int) =~= v);
        }
    }

    /// One browse-mode step: navigation, expansion toggling, and the
    /// entries into the other modes, per `spec_update_normal_ok`.
    pub fn update_normal(&mut self, collection: &mut Collection, action: Action) -> (r: Option<
        Action,
    >)
        requires
            old(self).wf(),
        ensures
            spec_update_normal_ok(
                old(self)@,
                old(collection)@,
                action,
                final(self)@,
                final(collection)@,
                r,
            ),
            final(self).wf(),
    {
        let rows = self.build_deck_list_items(collection);
        self.clamp_selection(rows.len());
        let sid = selected_deck_id(&rows, &self.selected, collection);
        proof {
            lemma_rows_view_len(rows@);
            assert(sid == sel_deck_id(old(self)@, old(collection)@));
        }
        match action {
            Action::Char(ch) => {
                if ch == 'n' {
                    if sid.is_some() {
                        self.mode = Mode::InsertNote(InsertNoteState::new());
                    }
                    None
                } else if ch == 's' {
                    let parent = match sid {
                        Some(id) => id,
                        None => collection.uuid,
                    };
                    self.expanded.insert(parent);
                    self.mode = Mode::InsertDeck(parent, InputState::new());
                    proof {
                        assert(self@.mode == ModeModel::InsertDeck(parent, empty_input()));
                    }
                    None
                } else if ch == 'a' {
                    self.mode = Mode::InsertDeck(collection.uuid, InputState::new());
                    proof {
                        assert(self@.mode == ModeModel::InsertDeck(
                            collection.uuid,
                            empty_input(),
                        ));
                    }
                    None
                } else if ch == 'q' {
                    Some(Action::Quit)
                } else if ch == 'D' {
                    match self.selected {
                        Some(i) => {
                            match rows[i].target {
                                RowTarget::DeckItem(id) => {
                                    let found = collection.find_deck(id).is_some();
                                    if found {
                                        collection.remove_deck(id);
                                    }
                                },
                                RowTarget::AddToItem(_) => {},
                            }
                        },
                        None => {},
                    }
                    None
                } else {
                    None
                }
            },
            Action::Up | Action::Down => {
                update_list_selection(&action, &mut self.selected, rows.len());
                let sid2 = selected_deck_id(&rows, &self.selected, collection);
                self.mode = Mode::Normal(sid2);
                None
            },
            Action::Space => {
                match self.selected {
                    Some(i) => {
                        match rows[i].target {
                            RowTarget::DeckItem(id) => {
                                if self.expanded.contains(id) {
                                    self.expanded.remove(id);
                                } else {
                                    self.expanded.insert(id);
                                }
                            },
                            RowTarget::AddToItem(_) => {},
                        }
                    },
                    None => {},
                }
                None
            },
            Action::Enter => {
                match sid {
                    Some(id) => Some(Action::Screen(Screen::Practice(id))),
                    None => None,
                }
            },
            _ => None,
        }
    }

    /// One deck-name entry step, per `spec_update_insert_ok`.
    fn update_insert(
        &mut self,
        collection: &mut Collection,
        action: Action,
        uuid: u128,
        input: InputState,
    ) -> (r: Option<Action>)
        requires
            old(self).wf(),
            input.wf(),
            old(self).mode@ == ModeModel::InsertDeck(uuid, input@),
        ensures
            spec_update_insert_ok(
                old(self)@,
                old(collection)@,
                action,
                uuid,
                input@,
                final(self)@,
                final(collection)@,
                r,
            ),
            final(self).wf(),
    {
        let rows = self.build_deck_list_items(collection);
        self.clamp_selection(rows.len());
        let sid = selected_deck_id(&rows, &self.selected, collection);
        proof {
            lemma_rows_view_len(rows@);
            assert(sid == sel_deck_id(old(self)@, old(collection)@));
        }
        let mut input = input;
        match action {
            Action::Char(ch) => {
                input.push(ch);
                self.mode = Mode::InsertDeck(uuid, input);
                None
            },
            Action::Space => {
                input.push(' ');
                self.mode = Mode::InsertDeck(uuid, input);
                None
            },
            Action::Backspace => {
                input.pop();
                self.mode = Mode::InsertDeck(uuid, input);
                None
            },
            Action::Left => {
                input.cursor_left();
                self.mode = Mode::InsertDeck(uuid, input);
                None
            },
            Action::Right => {
                input.cursor_right();
                self.mode = Mode::InsertDeck(uuid, input);
                None
            },
            Action::Enter => {
                self.mode = Mode::Normal(sid);
                if input.input.len() > 0 {
                    let name = input.get_input();
                    let d = Deck::new(name);
                    let ghost fresh = d.uuid;
                    proof {
                        assert(d@ =~= new_deck_model(input@.text, fresh));
                    }
                    collection.add_deck_to(uuid, d);
                    proof {
                        assert(final(collection)@ == spec_add_deck_to(
                            old(collection)@,
                            uuid,
                            new_deck_model(input@.text, fresh),
                        ));
                    }
                    Some(Action::Save)
                } else {
                    None
                }
            },
            Action::Esc => {
                self.mode = Mode::Normal(sid);
                None
            },
            _ => {
                self.mode = Mode::InsertDeck(uuid, input);
                None
            },
        }
    }

    /// One interaction step: dispatches the action to the current mode's
    /// handler, per `spec_update_ok`, and returns the follow-up command
    /// (persist, switch screen, or quit), if any.
    pub fn update(&mut self, collection: &mut Collection, action: Action) -> (r: Option<Action>)
        requires
            old(self).wf(),
        ensures
            spec_update_ok(
                old(self)@,
                old(collection)@,
                action,
                final(self)@,
                final(collection)@,
                r,
            ),
            final(self).wf(),
    {
        let mut taken = Mode::Normal(None);
        core::mem::swap(&mut taken, &mut self.mode);
        match taken {
            Mode::Normal(sel) => {
                self.mode = Mode::Normal(sel);
                self.update_normal(collection, action)
            },
            Mode::InsertDeck(uuid, input) => {
                self.mode = Mode::InsertDeck(uuid, input.clone());
                self.update_insert(collection, action, uuid, input)
            },
            Mode::InsertNote(st) => {
                self.mode = Mode::InsertNote(st.clone());
                let rows = self.build_deck_list_items(collection);
                self.clamp_selection(rows.len());
                let sid = selected_deck_id(&rows, &self.selected, collection);
                proof {
                    lemma_rows_view_len(rows@);
                    assert(sid == sel_deck_id(old(self)@, old(collection)@));
                }
                match sid {
                    None => {
                        self.mode = Mode::Normal(None);
                        None
                    },
                    Some(id) => {
                        let (st2, note) = note_insert_step(action, st);
                        if st2.completed {
                            self.mode = Mode::Normal(sid);
                            match note {
                                Some(n) => {
                                    collection.add_note_to(id, n);
                                    Some(Action::Save)
                                },
                                None => None,
                            }
                        } else {
                            self.mode = Mode::InsertNote(st2);
                            None
                        }
                    },
                }
            },
        }
    }
}

} // verus!
