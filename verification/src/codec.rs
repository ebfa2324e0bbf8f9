use vstd::prelude::*;

use crate::collection::Collection;
use crate::deck::{deck_view, decks_view, lemma_decks_view_len, Deck, DeckModel};
use crate::note::{Note, NoteModel, NoteType};
use crate::textutil::{append_dec, chars_to_string, dec_digits, digit_char, digit_val, is_digit,
    lemma_dec_digits_are_digits, string_to_chars};

verus! {

// The persisted form of a collection is a line-oriented text document.
// Every piece is self-delimiting: a number is its decimal digits followed
// by a newline; a string is its character count, then exactly that many
// characters, then a newline; lists are a count followed by that many
// items. Nothing is escaped, so any text round-trips, newlines included.

/// A number: decimal digits and a newline.
pub open spec fn ser_nat(n: nat) -> Seq<char> {
    dec_digits(n).push('\n')
}

/// A string: its length, the characters themselves, a newline.
pub open spec fn ser_str(t: Seq<char>) -> Seq<char> {
    ser_nat(t.len()) + t + seq!['\n']
}

/// A note type tag.
pub open spec fn ser_ntype(t: NoteType) -> Seq<char> {
    match t {
        NoteType::Basic => seq!['b', '\n'],
        NoteType::BasicAndReverse => seq!['r', '\n'],
    }
}

/// A note: front, back, type.
pub open spec fn ser_note(n: NoteModel) -> Seq<char> {
    ser_str(n.front) + ser_str(n.back) + ser_ntype(n.note_type)
}

/// A recorded parent name, or its absence.
pub open spec fn ser_parent(p: Option<Seq<char>>) -> Seq<char> {
    match p {
        Some(t) => seq!['s', '\n'] + ser_str(t),
        None => seq!['n', '\n'],
    }
}

pub open spec fn ser_notes(ns: Seq<NoteModel>) -> Seq<char>
    decreases ns.len(),
{
    if ns.len() == 0 {
        Seq::empty()
    } else {
        ser_note(ns[0]) + ser_notes(ns.drop_first())
    }
}

/// The header of a deck: name, id, parent record, subdeck count.
pub open spec fn ser_deck_hdr(m: DeckModel) -> Seq<char> {
    ser_str(m.name) + ser_nat(m.id as nat) + ser_parent(m.parent) + ser_nat(m.subdecks.len())
}

/// A deck: its header, then its subdecks, then its notes with their
/// count.
pub open spec fn ser_deck(m: DeckModel) -> Seq<char>
    decreases m, 1int,
{
    ser_deck_hdr(m) + ser_decks(m.subdecks) + ser_nat(m.notes.len()) + ser_notes(m.notes)
}

pub open spec fn ser_decks(s: Seq<DeckModel>) -> Seq<char>
    decreases s, 0int,
{
    if s.len() == 0 {
        Seq::empty()
    } else {
        ser_deck(s[0]) + ser_decks(s.drop_first())
    }
}

/// A whole collection: its id and its top-level decks.
pub open spec fn ser_collection(c: crate::collection::CollectionModel) -> Seq<char> {
    ser_nat(c.id as nat) + ser_nat(c.decks.len()) + ser_decks(c.decks)
}

/// The end of the run of digits starting at `i`.
pub open spec fn digits_end(s: Seq<char>, i: int) -> int
    decreases s.len() - i,
{
    if 0 <= i < s.len() && is_digit(s[i]) {
        digits_end(s, i + 1)
    } else {
        i
    }
}

/// The value of the digits `s[i..j)`, most significant first.
pub open spec fn digits_val(s: Seq<char>, i: int, j: int) -> nat
    decreases j - i,
{
    if i >= j {
        0
    } else {
        digits_val(s, i, j - 1) * 10 + (if digit_val(s[j - 1]) >= 0 {
            digit_val(s[j - 1]) as nat
        } else {
            0nat
        })
    }
}

/// Reading a number at `i`: at least one digit, a value that fits the
/// machine word, and the closing newline.
pub open spec fn sp_nat(s: Seq<char>, i: int) -> Option<(nat, int)> {
    let j = digits_end(s, i);
    if j > i && j < s.len() && s[j] == '\n' && digits_val(s, i, j) <= u128::MAX {
        Some((digits_val(s, i, j), j + 1))
    } else {
        None
    }
}

/// Reading a string at `i`: its length, that many characters, a newline.
pub open spec fn sp_str(s: Seq<char>, i: int) -> Option<(Seq<char>, int)> {
    match sp_nat(s, i) {
        None => None,
        Some((n, j)) => if j + n + 1 <= s.len() && s[j + n] == '\n' {
            Some((s.subrange(j, j + n), j + n + 1))
        } else {
            None
        },
    }
}

pub open spec fn sp_ntype(s: Seq<char>, i: int) -> Option<(NoteType, int)> {
    if 0 <= i && i + 2 <= s.len() && s[i + 1] == '\n' {
        if s[i] == 'b' {
            Some((NoteType::Basic, i + 2))
        } else if s[i] == 'r' {
            Some((NoteType::BasicAndReverse, i + 2))
        } else {
            None
        }
    } else {
        None
    }
}

pub open spec fn sp_parent(s: Seq<char>, i: int) -> Option<(Option<Seq<char>>, int)> {
    if 0 <= i && i + 2 <= s.len() && s[i + 1] == '\n' {
        if s[i] == 'n' {
            Some((None, i + 2))
        } else if s[i] == 's' {
            match sp_str(s, i + 2) {
                None => None,
                Some((t, j)) => Some((Some(t), j)),
            }
        } else {
            None
        }
    } else {
        None
    }
}

pub open spec fn sp_note(s: Seq<char>, i: int) -> Option<(NoteModel, int)> {
    match sp_str(s, i) {
        None => None,
        Some((front, j1)) => match sp_str(s, j1) {
            None => None,
            Some((back, j2)) => match sp_ntype(s, j2) {
                None => None,
                Some((t, j3)) => Some((NoteModel { front, back, note_type: t }, j3)),
            },
        },
    }
}

pub open spec fn sp_notes(s: Seq<char>, i: int, cnt: nat) -> Option<(Seq<NoteModel>, int)>
    decreases cnt,
{
    if cnt == 0 {
        Some((Seq::empty(), i))
    } else {
        match sp_note(s, i) {
            None => None,
            Some((n, j)) => match sp_notes(s, j, (cnt - 1) as nat) {
                None => None,
                Some((ns, j2)) => Some((seq![n] + ns, j2)),
            },
        }
    }
}

pub open spec fn sp_deck(s: Seq<char>, i: int) -> Option<(DeckModel, int)>
    decreases s.len() - i, 1int, 0int,
{
    match sp_str(s, i) {
        None => None,
        Some((name, j1)) => match sp_nat(s, j1) {
            None => None,
            Some((idn, j2)) => match sp_parent(s, j2) {
                None => None,
                Some((par, j3)) => match sp_nat(s, j3) {
                    None => None,
                    Some((dcnt, j4)) => if i < j4 <= s.len() {
                        match sp_decks(s, j4, dcnt) {
                            None => None,
                            Some((subs, j5)) => match sp_nat(s, j5) {
                                None => None,
                                Some((ncnt, j6)) => match sp_notes(s, j6, ncnt) {
                                    None => None,
                                    Some((notes, j7)) => Some(
                                        (
                                            DeckModel {
                                                name,
                                                id: idn as u128,
                                                subdecks: subs,
                                                notes,
                                                parent: par,
                                            },
                                            j7,
                                        ),
                                    ),
                                },
                            },
                        }
                    } else {
                        None
                    },
                },
            },
        },
    }
}

pub open spec fn sp_decks(s: Seq<char>, i: int, cnt: nat) -> Option<(Seq<DeckModel>, int)>
    decreases s.len() - i, 2int, cnt,
{
    if cnt == 0 {
        Some((Seq::empty(), i))
    } else {
        match sp_deck(s, i) {
            None => None,
            Some((d, j)) => if i < j <= s.len() {
                match sp_decks(s, j, (cnt - 1) as nat) {
                    None => None,
                    Some((ds, j2)) => Some((seq![d] + ds, j2)),
                }
            } else {
                None
            },
        }
    }
}

/// Reading a whole document: the collection id, the top-level decks, and
/// nothing after them.
pub open spec fn sp_collection(s: Seq<char>) -> Option<crate::collection::CollectionModel> {
    match sp_nat(s, 0) {
        None => None,
        Some((idn, j1)) => match sp_nat(s, j1) {
            None => None,
            Some((cnt, j2)) => if 0 < j2 <= s.len() {
                match sp_decks(s, j2, cnt) {
                    None => None,
                    Some((ds, j3)) => if j3 == s.len() {
                        Some(crate::collection::CollectionModel { id: idn as u128, decks: ds })
                    } else {
                        None
                    },
                }
            } else {
                None
            },
        },
    }
}

/// The sizes a collection can hold in memory: every length fits the
/// machine word the format stores counts in. Every collection the
/// executable code builds satisfies this.
pub open spec fn bounded_note(n: NoteModel) -> bool {
    n.front.len() <= u128::MAX && n.back.len() <= u128::MAX
}

pub open spec fn bounded_deck(m: DeckModel) -> bool
    decreases m, 1int,
{
    m.name.len() <= u128::MAX && (match m.parent {
        Some(p) => p.len() <= u128::MAX,
        None => true,
    }) && m.subdecks.len() <= u128::MAX && m.notes.len() <= u128::MAX && (forall|j: int|
        0 <= j < m.notes.len() ==> bounded_note(#[trigger] m.notes[j])) && bounded_decks(
        m.subdecks,
    )
}

pub open spec fn bounded_decks(s: Seq<DeckModel>) -> bool
    decreases s, 0int,
{
    if s.len() == 0 {
        true
    } else {
        bounded_deck(s[0]) && bounded_decks(s.drop_first())
    }
}

pub open spec fn bounded_collection(c: crate::collection::CollectionModel) -> bool {
    c.decks.len() <= u128::MAX && bounded_decks(c.decks)
}

proof fn lemma_digits_end_at(s: Seq<char>, i: int, k: int)
    requires
        0 <= i <= k <= s.len(),
        forall|m: int| i <= m < k ==> is_digit(#[trigger] s[m]),
        k == s.len() || !is_digit(s[k]),
    ensures
        digits_end(s, i) == k,
    decreases k - i,
{
    if i < k {
        lemma_digits_end_at(s, i + 1, k);
    }
}

proof fn lemma_digits_val_of_dec(s: Seq<char>, i: int, n: nat)
    requires
        0 <= i,
        i + dec_digits(n).len() <= s.len(),
        s.subrange(i, i + dec_digits(n).len() as int) == dec_digits(n),
    ensures
        digits_val(s, i, i + dec_digits(n).len()) == n,
    decreases n,
{
    let dd = dec_digits(n);
    let k = i + dd.len();
    if n < 10 {
        assert(s[i] == dd[0]);
        assert(digit_val(digit_char(n as int)) == n);
        assert(digits_val(s, i, i) == 0);
    } else {
        assert(dd == dec_digits(n / 10).push(digit_char((n % 10) as int)));
        assert(s.subrange(i, k - 1) =~= dec_digits(n / 10)) by {
            assert forall|m: int| 0 <= m < dd.len() - 1 implies #[trigger] s.subrange(
                i,
                k - 1,
            )[m] == dec_digits(n / 10)[m] by {
                assert(s.subrange(i, k - 1)[m] == s[i + m]);
                assert(s[i + m] == dd[m]);
            }
        }
        lemma_digits_val_of_dec(s, i, n / 10);
        assert(s[k - 1] == dd[dd.len() - 1]);
        assert(digit_val(digit_char((n % 10) as int)) == n % 10);
        assert(digits_val(s, i, k) == digits_val(s, i, k - 1) * 10 + (n % 10));
    }
}

pub proof fn lemma_rt_nat(pre: Seq<char>, n: nat, rest: Seq<char>)
    requires
        n <= u128::MAX,
    ensures
        sp_nat(pre + ser_nat(n) + rest, pre.len() as int) == Some(
            (n, (pre.len() + ser_nat(n).len()) as int),
        ),
{
    let s = pre + ser_nat(n) + rest;
    let i = pre.len() as int;
    let dd = dec_digits(n);
    lemma_dec_digits_are_digits(n);
    let k = i + dd.len();
    assert forall|m: int| i <= m < k implies is_digit(#[trigger] s[m]) by {
        assert(s[m] == ser_nat(n)[m - i]);
        assert(ser_nat(n)[m - i] == dd[m - i]);
    }
    assert(s[k] == ser_nat(n)[dd.len() as int]);
    assert(s[k] == '\n');
    assert(!is_digit('\n'));
    lemma_digits_end_at(s, i, k);
    assert(s.subrange(i, k) =~= dd) by {
        assert forall|m: int| 0 <= m < dd.len() implies s.subrange(i, k)[m] == dd[m] by {
            assert(s.subrange(i, k)[m] == s[i + m]);
            assert(s[i + m] == ser_nat(n)[m]);
        }
    }
    lemma_digits_val_of_dec(s, i, n);
}

pub proof fn lemma_rt_str(pre: Seq<char>, t: Seq<char>, rest: Seq<char>)
    requires
        t.len() <= u128::MAX,
    ensures
        sp_str(pre + ser_str(t) + rest, pre.len() as int) == Some(
            (t, (pre.len() + ser_str(t).len()) as int),
        ),
{
    let s = pre + ser_str(t) + rest;
    let i = pre.len() as int;
    assert(s =~= pre + ser_nat(t.len()) + (t + seq!['\n'] + rest));
    lemma_rt_nat(pre, t.len(), t + seq!['\n'] + rest);
    let j = i + ser_nat(t.len()).len();
    assert(s[j + t.len()] == '\n');
    assert(s.subrange(j, j + t.len() as int) =~= t);
}

pub proof fn lemma_rt_ntype(pre: Seq<char>, t: NoteType, rest: Seq<char>)
    ensures
        sp_ntype(pre + ser_ntype(t) + rest, pre.len() as int) == Some(
            (t, (pre.len() + ser_ntype(t).len()) as int),
        ),
{
    let s = pre + ser_ntype(t) + rest;
    let i = pre.len() as int;
    assert(s[i] == ser_ntype(t)[0]);
    assert(s[i + 1] == ser_ntype(t)[1]);
}

pub proof fn lemma_rt_parent(pre: Seq<char>, p: Option<Seq<char>>, rest: Seq<char>)
    requires
        match p {
            Some(t) => t.len() <= u128::MAX,
            None => true,
        },
    ensures
        sp_parent(pre + ser_parent(p) + rest, pre.len() as int) == Some(
            (p, (pre.len() + ser_parent(p).len()) as int),
        ),
{
    let s = pre + ser_parent(p) + rest;
    let i = pre.len() as int;
    match p {
        None => {
            assert(s[i] == ser_parent(p)[0]);
            assert(s[i + 1] == ser_parent(p)[1]);
        },
        Some(t) => {
            assert(s[i] == ser_parent(p)[0]);
            assert(s[i + 1] == ser_parent(p)[1]);
            assert(s =~= (pre + seq!['s', '\n']) + ser_str(t) + rest);
            lemma_rt_str(pre + seq!['s', '\n'], t, rest);
        },
    }
}

pub proof fn lemma_rt_note(pre: Seq<char>, n: NoteModel, rest: Seq<char>)
    requires
        bounded_note(n),
    ensures
        sp_note(pre + ser_note(n) + rest, pre.len() as int) == Some(
            (n, (pre.len() + ser_note(n).len()) as int),
        ),
{
    let s = pre + ser_note(n) + rest;
    assert(s =~= pre + ser_str(n.front) + (ser_str(n.back) + ser_ntype(n.note_type) + rest));
    lemma_rt_str(pre, n.front, ser_str(n.back) + ser_ntype(n.note_type) + rest);
    let pre2 = pre + ser_str(n.front);
    assert(s =~= pre2 + ser_str(n.back) + (ser_ntype(n.note_type) + rest));
    lemma_rt_str(pre2, n.back, ser_ntype(n.note_type) + rest);
    let pre3 = pre2 + ser_str(n.back);
    assert(s =~= pre3 + ser_ntype(n.note_type) + rest);
    lemma_rt_ntype(pre3, n.note_type, rest);
}

pub proof fn lemma_rt_notes(pre: Seq<char>, ns: Seq<NoteModel>, rest: Seq<char>)
    requires
        forall|j: int| 0 <= j < ns.len() ==> bounded_note(#[trigger] ns[j]),
    ensures
        sp_notes(pre + ser_notes(ns) + rest, pre.len() as int, ns.len()) == Some(
            (ns, (pre.len() + ser_notes(ns).len()) as int),
        ),
    decreases ns.len(),
{
    let s = pre + ser_notes(ns) + rest;
    if ns.len() == 0 {
        assert(ser_notes(ns) =~= Seq::<char>::empty());
    } else {
        assert(s =~= pre + ser_note(ns[0]) + (ser_notes(ns.drop_first()) + rest));
        lemma_rt_note(pre, ns[0], ser_notes(ns.drop_first()) + rest);
        let pre2 = pre + ser_note(ns[0]);
        assert(s =~= pre2 + ser_notes(ns.drop_first()) + rest);
        lemma_rt_notes(pre2, ns.drop_first(), rest);
        assert(seq![ns[0]] + ns.drop_first() =~= ns);
    }
}

proof fn lemma_rt_deck_hdr(pre: Seq<char>, m: DeckModel, rest: Seq<char>)
    requires
        bounded_deck(m),
    ensures
        ({
            let s = pre + ser_deck_hdr(m) + rest;
            let i = pre.len() as int;
            sp_str(s, i) == Some((m.name, i + ser_str(m.name).len()))
                && sp_nat(s, i + ser_str(m.name).len()) == Some(
                (
                    m.id as nat,
                    i + ser_str(m.name).len() + ser_nat(m.id as nat).len(),
                ),
            ) && sp_parent(s, i + ser_str(m.name).len() + ser_nat(m.id as nat).len()) == Some(
                (
                    m.parent,
                    i + ser_str(m.name).len() + ser_nat(m.id as nat).len() + ser_parent(
                        m.parent,
                    ).len(),
                ),
            ) && sp_nat(
                s,
                i + ser_str(m.name).len() + ser_nat(m.id as nat).len() + ser_parent(
                    m.parent,
                ).len(),
            ) == Some((m.subdecks.len(), (i + ser_deck_hdr(m).len()) as int))
        }),
{
    let s = pre + ser_deck_hdr(m) + rest;
    let r1 = ser_nat(m.id as nat) + ser_parent(m.parent) + ser_nat(m.subdecks.len()) + rest;
    assert(s =~= pre + ser_str(m.name) + r1);
    lemma_rt_str(pre, m.name, r1);
    let pre2 = pre + ser_str(m.name);
    let r2 = ser_parent(m.parent) + ser_nat(m.subdecks.len()) + rest;
    assert(s =~= pre2 + ser_nat(m.id as nat) + r2);
    lemma_rt_nat(pre2, m.id as nat, r2);
    let pre3 = pre2 + ser_nat(m.id as nat);
    let r3 = ser_nat(m.subdecks.len()) + rest;
    assert(s =~= pre3 + ser_parent(m.parent) + r3);
    lemma_rt_parent(pre3, m.parent, r3);
    let pre4 = pre3 + ser_parent(m.parent);
    assert(s =~= pre4 + ser_nat(m.subdecks.len()) + rest);
    lemma_rt_nat(pre4, m.subdecks.len(), rest);
}

#[verifier::rlimit(100)]
pub proof fn lemma_rt_deck(pre: Seq<char>, m: DeckModel, rest: Seq<char>)
    requires
        bounded_deck(m),
    ensures
        sp_deck(pre + ser_deck(m) + rest, pre.len() as int) == Some(
            (m, (pre.len() + ser_deck(m).len()) as int),
        ),
    decreases m, 1int,
{
    let s = pre + ser_deck(m) + rest;
    let tail = ser_decks(m.subdecks) + ser_nat(m.notes.len()) + ser_notes(m.notes) + rest;
    assert(s =~= pre + ser_deck_hdr(m) + tail);
    lemma_rt_deck_hdr(pre, m, tail);
    let pre5 = pre + ser_deck_hdr(m);
    let r5 = ser_nat(m.notes.len()) + ser_notes(m.notes) + rest;
    assert(s =~= pre5 + ser_decks(m.subdecks) + r5);
    lemma_rt_decks(pre5, m.subdecks, r5);
    let pre6 = pre5 + ser_decks(m.subdecks);
    let r6 = ser_notes(m.notes) + rest;
    assert(s =~= pre6 + ser_nat(m.notes.len()) + r6);
    lemma_rt_nat(pre6, m.notes.len(), r6);
    let pre7 = pre6 + ser_nat(m.notes.len());
    assert(s =~= pre7 + ser_notes(m.notes) + rest);
    lemma_rt_notes(pre7, m.notes, rest);
    assert((DeckModel {
        name: m.name,
        id: (m.id as nat) as u128,
        subdecks: m.subdecks,
        notes: m.notes,
        parent: m.parent,
    }) == m);
}

pub proof fn lemma_rt_decks(pre: Seq<char>, ds: Seq<DeckModel>, rest: Seq<char>)
    requires
        bounded_decks(ds),
    ensures
        sp_decks(pre + ser_decks(ds) + rest, pre.len() as int, ds.len()) == Some(
            (ds, (pre.len() + ser_decks(ds).len()) as int),
        ),
    decreases ds, 0int,
{
    let s = pre + ser_decks(ds) + rest;
    if ds.len() == 0 {
        assert(ser_decks(ds) =~= Seq::<char>::empty());
    } else {
        assert(s =~= pre + ser_deck(ds[0]) + (ser_decks(ds.drop_first()) + rest));
        lemma_rt_deck(pre, ds[0], ser_decks(ds.drop_first()) + rest);
        let pre2 = pre + ser_deck(ds[0]);
        assert(s =~= pre2 + ser_decks(ds.drop_first()) + rest);
        lemma_rt_decks(pre2, ds.drop_first(), rest);
        assert(seq![ds[0]] + ds.drop_first() =~= ds);
    }
}

/// Serializing a collection and reading the document back yields the
/// collection itself: the same id, names, nesting, note contents and
/// types.
pub proof fn lemma_round_trip(c: crate::collection::CollectionModel)
    requires
        bounded_collection(c),
    ensures
        sp_collection(ser_collection(c)) == Some(c),
{
    let s = ser_collection(c);
    assert(s =~= Seq::<char>::empty() + ser_nat(c.id as nat) + (ser_nat(c.decks.len())
        + ser_decks(c.decks) + Seq::<char>::empty()));
    lemma_rt_nat(
        Seq::<char>::empty(),
        c.id as nat,
        ser_nat(c.decks.len()) + ser_decks(c.decks) + Seq::<char>::empty(),
    );
    let pre2 = Seq::<char>::empty() + ser_nat(c.id as nat);
    assert(s =~= pre2 + ser_nat(c.decks.len()) + (ser_decks(c.decks) + Seq::<char>::empty()));
    lemma_rt_nat(pre2, c.decks.len(), ser_decks(c.decks) + Seq::<char>::empty());
    let pre3 = pre2 + ser_nat(c.decks.len());
    assert(s =~= pre3 + ser_decks(c.decks) + Seq::<char>::empty());
    lemma_rt_decks(pre3, c.decks, Seq::<char>::empty());
    assert((crate::collection::CollectionModel {
        id: (c.id as nat) as u128,
        decks: c.decks,
    }) == c);
}

fn ser_nat_into(n: u128, out: &mut Vec<char>)
    ensures
        final(out)@ == old(out)@ + ser_nat(n as nat),
{
    append_dec(n, out);
    out.push('\n');
    proof {
        assert(out@ =~= old(out)@ + ser_nat(n as nat));
    }
}

fn ser_str_into(t: &str, out: &mut Vec<char>)
    ensures
        final(out)@ == old(out)@ + ser_str(t@),
        t@.len() <= u128::MAX,
{
    let mut cs = string_to_chars(t);
    let n = cs.len();
    ser_nat_into(n as u128, out);
    out.append(&mut cs);
    out.push('\n');
    proof {
        assert(out@ =~= old(out)@ + ser_str(t@));
    }
}

fn ser_note_into(n: &Note, out: &mut Vec<char>)
    ensures
        final(out)@ == old(out)@ + ser_note(n@),
        bounded_note(n@),
{
    ser_str_into(n.front.as_str(), out);
    ser_str_into(n.back.as_str(), out);
    match n.note_type {
        NoteType::Basic => {
            out.push('b');
        },
        NoteType::BasicAndReverse => {
            out.push('r');
        },
    }
    out.push('\n');
    proof {
        assert(out@ =~= old(out)@ + ser_note(n@));
    }
}

fn ser_notes_into(v: &Vec<Note>, i: usize, out: &mut Vec<char>)
    requires
        i <= v.len(),
    ensures
        final(out)@ == old(out)@ + ser_notes(v.deep_view().skip(i as int)),
        forall|j: int| i <= j < v@.len() ==> bounded_note(#[trigger] v.deep_view()[j]),
    decreases v.len() - i,
{
    if i == v.len() {
        proof {
            assert(v.deep_view().skip(i as int) =~= Seq::<NoteModel>::empty());
            assert(out@ =~= out@ + ser_notes(v.deep_view().skip(i as int)));
        }
    } else {
        proof {
            assert(v.deep_view().skip(i as int)[0] == v@[i as int]@);
            assert(v.deep_view().skip(i as int).drop_first() =~= v.deep_view().skip(
                i as int + 1,
            ));
        }
        ser_note_into(&v[i], out);
        ser_notes_into(v, i + 1, out);
        proof {
            assert(out@ =~= old(out)@ + ser_notes(v.deep_view().skip(i as int)));
        }
    }
}

fn ser_deck_into(d: &Deck, out: &mut Vec<char>)
    ensures
        final(out)@ == old(out)@ + ser_deck(d@),
        bounded_deck(d@),
    decreases d, 0int, 0int,
{
    ser_str_into(d.name.as_str(), out);
    ser_nat_into(d.uuid, out);
    match &d.parent {
        Some(p) => {
            out.push('s');
            out.push('\n');
            ser_str_into(p.as_str(), out);
        },
        None => {
            out.push('n');
            out.push('\n');
        },
    }
    proof {
        lemma_decks_view_len(d.subdecks@);
    }
    ser_nat_into(d.subdecks.len() as u128, out);
    ser_decks_into(&d.subdecks, 0, out);
    ser_nat_into(d.notes.len() as u128, out);
    ser_notes_into(&d.notes, 0, out);
    proof {
        assert(d@.subdecks.skip(0) =~= d@.subdecks);
        assert(d.notes.deep_view().skip(0) =~= d@.notes);
        assert(out@ =~= old(out)@ + ser_deck(d@));
        assert(d@.subdecks.len() == d.subdecks@.len());
        assert(d@.notes.len() == d.notes@.len());
    }
}

fn ser_decks_into(v: &Vec<Deck>, i: usize, out: &mut Vec<char>)
    requires
        i <= v.len(),
    ensures
        final(out)@ == old(out)@ + ser_decks(decks_view(v@).skip(i as int)),
        bounded_decks(decks_view(v@).skip(i as int)),
    decreases v, v.len() - i, 1int,
{
    proof {
        lemma_decks_view_len(v@);
    }
    if i == v.len() {
        proof {
            assert(decks_view(v@).skip(i as int) =~= Seq::<DeckModel>::empty());
            assert(out@ =~= out@ + ser_decks(decks_view(v@).skip(i as int)));
        }
    } else {
        proof {
            assert(decks_view(v@).skip(i as int)[0] == deck_view(v@[i as int]));
            assert(decks_view(v@).skip(i as int).drop_first() =~= decks_view(v@).skip(
                i as int + 1,
            ));
        }
        ser_deck_into(&v[i], out);
        ser_decks_into(v, i + 1, out);
        proof {
            assert(out@ =~= old(out)@ + ser_decks(decks_view(v@).skip(i as int)));
            assert(bounded_decks(decks_view(v@).skip(i as int)));
        }
    }
}

/// The persisted text of a collection. Serializing also witnesses that
/// the collection is `bounded_collection`, so `lemma_round_trip` applies
/// to every collection this function accepts.
pub fn serialize_collection(c: &Collection) -> (r: Vec<char>)
    ensures
        r@ == ser_collection(c@),
        bounded_collection(c@),
{
    let mut out: Vec<char> = Vec::new();
    ser_nat_into(c.uuid, &mut out);
    proof {
        lemma_decks_view_len(c.decks@);
    }
    ser_nat_into(c.decks.len() as u128, &mut out);
    ser_decks_into(&c.decks, 0, &mut out);
    proof {
        assert(decks_view(c.decks@).skip(0) =~= decks_view(c.decks@));
        assert(out@ =~= ser_collection(c@));
        assert(c@.decks.len() == c.decks@.len());
    }
    out
}

proof fn lemma_digits_end_ge(s: Seq<char>, i: int)
    ensures
        digits_end(s, i) >= i,
    decreases s.len() - i,
{
    if 0 <= i < s.len() && is_digit(s[i]) {
        lemma_digits_end_ge(s, i + 1);
    }
}

proof fn lemma_digits_end_pass(s: Seq<char>, i: int, k: int)
    requires
        0 <= i <= k <= s.len(),
        forall|m: int| i <= m < k ==> is_digit(#[trigger] s[m]),
    ensures
        digits_end(s, i) == digits_end(s, k),
    decreases k - i,
{
    if i < k {
        lemma_digits_end_pass(s, i + 1, k);
    }
}

proof fn lemma_digits_val_mono(s: Seq<char>, i: int, k: int, j: int)
    requires
        i <= k <= j,
    ensures
        digits_val(s, i, j) >= digits_val(s, i, k),
    decreases j - k,
{
    if k < j {
        lemma_digits_val_mono(s, i, k, j - 1);
        assert(digits_val(s, i, j) >= digits_val(s, i, j - 1));
    }
}

/// Reads a number: digits up to a newline, failing on a missing digit,
/// a missing newline, or a value over the machine word.
pub fn parse_nat(s: &Vec<char>, i: usize) -> (r: Option<(u128, usize)>)
    requires
        i <= s.len(),
    ensures
        match r {
            Some(p) => sp_nat(s@, i as int) == Some((p.0 as nat, p.1 as int)) && i < p.1
                <= s@.len(),
            None => sp_nat(s@, i as int) is None,
        },
{
    let mut k: usize = i;
    let mut acc: u128 = 0;
    loop
        invariant
            i <= k <= s@.len(),
            forall|m: int| i <= m < k ==> is_digit(#[trigger] s@[m]),
            acc as nat == digits_val(s@, i as int, k as int),
        decreases s@.len() - k,
    {
        if k == s.len() {
            proof {
                lemma_digits_end_pass(s@, i as int, k as int);
            }
            return None;
        }
        let c = s[k];
        if '0' <= c && c <= '9' {
            let d: u128 = (c as u32 - 48) as u128;
            proof {
                assert(is_digit(s@[k as int]));
                assert(digit_val(s@[k as int]) == d as int);
            }
            if acc > (u128::MAX - d) / 10 {
                proof {
                    lemma_digits_end_pass(s@, i as int, k as int + 1);
                    lemma_digits_end_ge(s@, k as int + 1);
                    lemma_digits_val_mono(s@, i as int, k as int + 1, digits_end(s@, i as int));
                    assert(digits_val(s@, i as int, k as int + 1) == (acc as nat) * 10 + (
                    d as nat));
                    assert((u128::MAX - d) / 10 * 10 + (u128::MAX - d) % 10 == u128::MAX - d);
                    assert((acc as nat) * 10 + (d as nat) > u128::MAX);
                }
                return None;
            }
            proof {
                assert((u128::MAX - d) / 10 * 10 + (u128::MAX - d) % 10 == u128::MAX - d);
                assert(acc * 10 + d <= u128::MAX);
            }
            acc = acc * 10 + d;
            k = k + 1;
        } else {
            proof {
                lemma_digits_end_pass(s@, i as int, k as int);
            }
            if c == '\n' && k > i {
                return Some((acc, k + 1));
            }
            return None;
        }
    }
}

/// Reads a string: its length, that many characters, a newline.
pub fn parse_str(s: &Vec<char>, i: usize) -> (r: Option<(Vec<char>, usize)>)
    requires
        i <= s.len(),
    ensures
        match r {
            Some(p) => sp_str(s@, i as int) == Some((p.0@, p.1 as int)) && i < p.1 <= s@.len(),
            None => sp_str(s@, i as int) is None,
        },
{
    match parse_nat(s, i) {
        None => None,
        Some((n, j)) => {
            let rem = s.len() - j;
            if n < rem as u128 {
                let nn = n as usize;
                if s[j + nn] == '\n' {
                    let mut t: Vec<char> = Vec::new();
                    let mut k: usize = 0;
                    while k < nn
                        invariant
                            k <= nn,
                            j + nn < s@.len(),
                            s@.len() <= usize::MAX,
                            t@ == s@.subrange(j as int, j as int + k as int),
                        decreases nn - k,
                    {
                        t.push(s[j + k]);
                        k = k + 1;
                        proof {
                            assert(t@ =~= s@.subrange(j as int, j as int + k as int));
                        }
                    }
                    proof {
                        assert(t@ =~= s@.subrange(j as int, j as int + nn as int));
                    }
                    Some((t, j + nn + 1))
                } else {
                    None
                }
            } else {
                None
            }
        },
    }
}

pub fn parse_ntype(s: &Vec<char>, i: usize) -> (r: Option<(NoteType, usize)>)
    requires
        i <= s.len(),
    ensures
        match r {
            Some(p) => sp_ntype(s@, i as int) == Some((p.0, p.1 as int)) && i < p.1 <= s@.len(),
            None => sp_ntype(s@, i as int) is None,
        },
{
    if s.len() - i >= 2 && s[i + 1] == '\n' {
        if s[i] == 'b' {
            Some((NoteType::Basic, i + 2))
        } else if s[i] == 'r' {
            Some((NoteType::BasicAndReverse, i + 2))
        } else {
            None
        }
    } else {
        None
    }
}

pub fn parse_parent(s: &Vec<char>, i: usize) -> (r: Option<(Option<String>, usize)>)
    requires
        i <= s.len(),
    ensures
        match r {
            Some(p) => sp_parent(s@, i as int) == Some(
                (
                    match p.0 {
                        Some(t) => Some(t@),
                        None => None,
                    },
                    p.1 as int,
                ),
            ) && i < p.1 <= s@.len(),
            None => sp_parent(s@, i as int) is None,
        },
{
    if s.len() - i >= 2 && s[i + 1] == '\n' {
        if s[i] == 'n' {
            Some((None, i + 2))
        } else if s[i] == 's' {
            match parse_str(s, i + 2) {
                None => None,
                Some((t, j)) => Some((Some(chars_to_string(&t)), j)),
            }
        } else {
            None
        }
    } else {
        None
    }
}

pub fn parse_note(s: &Vec<char>, i: usize) -> (r: Option<(Note, usize)>)
    requires
        i <= s.len(),
    ensures
        match r {
            Some(p) => sp_note(s@, i as int) == Some((p.0@, p.1 as int)) && i < p.1 <= s@.len(),
            None => sp_note(s@, i as int) is None,
        },
{
    match parse_str(s, i) {
        None => None,
        Some((front, j1)) => match parse_str(s, j1) {
            None => None,
            Some((back, j2)) => match parse_ntype(s, j2) {
                None => None,
                Some((t, j3)) => Some(
                    (Note::new(chars_to_string(&front), chars_to_string(&back), t), j3),
                ),
            },
        },
    }
}

pub fn parse_notes(s: &Vec<char>, i: usize, cnt: u128) -> (r: Option<(Vec<Note>, usize)>)
    requires
        i <= s.len(),
    ensures
        match r {
            Some(p) => sp_notes(s@, i as int, cnt as nat) == Some((p.0.deep_view(), p.1 as int))
                && i <= p.1 <= s@.len(),
            None => sp_notes(s@, i as int, cnt as nat) is None,
        },
    decreases cnt,
{
    if cnt == 0 {
        let out: Vec<Note> = Vec::new();
        proof {
            assert(out.deep_view() =~= Seq::<NoteModel>::empty());
        }
        Some((out, i))
    } else {
        match parse_note(s, i) {
            None => None,
            Some((n, j)) => match parse_notes(s, j, cnt - 1) {
                None => None,
                Some((ns, j2)) => {
                    let mut out: Vec<Note> = Vec::new();
                    out.push(n);
                    let ghost n_view = out.deep_view();
                    let mut ns = ns;
                    let ghost ns_view = ns.deep_view();
                    out.append(&mut ns);
                    proof {
                        assert(out.deep_view() =~= n_view + ns_view);
                        assert(n_view =~= seq![sp_note(s@, i as int)->Some_0.0]);
                    }
                    Some((out, j2))
                },
            },
        }
    }
}

pub fn parse_deck(s: &Vec<char>, i: usize) -> (r: Option<(Deck, usize)>)
    requires
        i <= s.len(),
    ensures
        match r {
            Some(p) => sp_deck(s@, i as int) == Some((p.0@, p.1 as int)) && i < p.1 <= s@.len(),
            None => sp_deck(s@, i as int) is None,
        },
    decreases s@.len() - i, 1int, 0int,
{
    match parse_str(s, i) {
        None => None,
        Some((name, j1)) => match parse_nat(s, j1) {
            None => None,
            Some((idn, j2)) => match parse_parent(s, j2) {
                None => None,
                Some((par, j3)) => match parse_nat(s, j3) {
                    None => None,
                    Some((dcnt, j4)) => match parse_decks(s, j4, dcnt) {
                        None => None,
                        Some((subs, j5)) => match parse_nat(s, j5) {
                            None => None,
                            Some((ncnt, j6)) => match parse_notes(s, j6, ncnt) {
                                None => None,
                                Some((notes, j7)) => {
                                    let d = Deck {
                                        name: chars_to_string(&name),
                                        uuid: idn,
                                        subdecks: subs,
                                        notes,
                                        parent: par,
                                    };
                                    proof {
                                        assert(d@ =~= sp_deck(s@, i as int)->Some_0.0);
                                    }
                                    Some((d, j7))
                                },
                            },
                        },
                    },
                },
            },
        },
    }
}

pub fn parse_decks(s: &Vec<char>, i: usize, cnt: u128) -> (r: Option<(Vec<Deck>, usize)>)
    requires
        i <= s.len(),
    ensures
        match r {
            Some(p) => sp_decks(s@, i as int, cnt as nat) == Some(
                (decks_view(p.0@), p.1 as int),
            ) && i <= p.1 <= s@.len(),
            None => sp_decks(s@, i as int, cnt as nat) is None,
        },
    decreases s@.len() - i, 2int, cnt,
{
    if cnt == 0 {
        let out: Vec<Deck> = Vec::new();
        proof {
            assert(decks_view(out@) =~= Seq::<DeckModel>::empty());
        }
        Some((out, i))
    } else {
        match parse_deck(s, i) {
            None => None,
            Some((d, j)) => match parse_decks(s, j, cnt - 1) {
                None => None,
                Some((ds, j2)) => {
                    let mut out: Vec<Deck> = Vec::new();
                    let ghost d_model = d@;
                    out.push(d);
                    let mut ds = ds;
                    let ghost ds_models = decks_view(ds@);
                    let ghost ds_seq = ds@;
                    let ghost head = out@;
                    out.append(&mut ds);
                    proof {
                        assert(out@ =~= head + ds_seq);
                        lemma_decks_view_len(out@);
                        lemma_decks_view_len(head);
                        lemma_decks_view_len(ds_seq);
                        assert(decks_view(out@) =~= seq![d_model] + ds_models);
                    }
                    Some((out, j2))
                },
            },
        }
    }
}

/// Reads a whole document back into a collection; `None` when the text
/// is not a well-formed document.
pub fn parse_collection(s: &Vec<char>) -> (r: Option<Collection>)
    ensures
        match r {
            Some(c) => sp_collection(s@) == Some(c@),
            None => sp_collection(s@) is None,
        },
{
    match parse_nat(s, 0) {
        None => None,
        Some((idn, j1)) => match parse_nat(s, j1) {
            None => None,
            Some((cnt, j2)) => match parse_decks(s, j2, cnt) {
                None => None,
                Some((ds, j3)) => {
                    if j3 == s.len() {
                        Some(Collection { uuid: idn, decks: ds })
                    } else {
                        None
                    }
                },
            },
        },
    }
}

} // verus!
