use vstd::prelude::*;

use crate::deck::Deck;
use crate::note::{Note, NoteModel, NoteType};
use crate::textutil::{chars_to_string, string_to_chars};

verus! {

/// The first position of a character at or after `from`, or the length
/// when it does not occur.
pub open spec fn idx_of(s: Seq<char>, from: int, c: char) -> int
    decreases s.len() - from,
{
    if 0 <= from < s.len() {
        if s[from] == c {
            from
        } else {
            idx_of(s, from + 1, c)
        }
    } else {
        s.len() as int
    }
}

/// Packaged notes keep their fields in one blob, separated by the unit
/// separator control character: the first field is the front, the second
/// the back; a missing field is empty.
pub open spec fn spec_note_of_blob(s: Seq<char>) -> NoteModel {
    let i1 = idx_of(s, 0, '\x1f');
    NoteModel {
        front: s.subrange(0, i1),
        back: if i1 < s.len() {
            s.subrange(i1 + 1, idx_of(s, i1 + 1, '\x1f'))
        } else {
            Seq::empty()
        },
        note_type: NoteType::Basic,
    }
}

fn find_char(v: &Vec<char>, from: usize, c: char) -> (r: usize)
    requires
        from <= v.len(),
    ensures
        r == idx_of(v@, from as int, c),
        from <= r <= v@.len(),
    decreases v@.len() - from,
{
    if from == v.len() {
        v.len()
    } else if v[from] == c {
        from
    } else {
        find_char(v, from + 1, c)
    }
}

fn copy_range(v: &Vec<char>, a: usize, b: usize) -> (r: Vec<char>)
    requires
        a <= b <= v.len(),
    ensures
        r@ == v@.subrange(a as int, b as int),
{
    let mut out: Vec<char> = Vec::new();
    let mut k: usize = a;
    while k < b
        invariant
            a <= k <= b <= v@.len(),
            out@ == v@.subrange(a as int, k as int),
        decreases b - k,
    {
        out.push(v[k]);
        k = k + 1;
        proof {
            assert(out@ =~= v@.subrange(a as int, k as int));
        }
    }
    out
}

/// The note a packaged field blob yields.
pub fn note_from_blob(blob: &str) -> (r: Note)
    ensures
        r@ == spec_note_of_blob(blob@),
{
    let cs = string_to_chars(blob);
    let i1 = find_char(&cs, 0, '\x1f');
    let front = copy_range(&cs, 0, i1);
    let back: Vec<char> = if i1 < cs.len() {
        let i2 = find_char(&cs, i1 + 1, '\x1f');
        copy_range(&cs, i1 + 1, i2)
    } else {
        Vec::new()
    };
    proof {
        if i1 >= cs@.len() {
            assert(back@ =~= Seq::<char>::empty());
        }
    }
    Note::new(chars_to_string(&front), chars_to_string(&back), NoteType::Basic)
}

/// The deck a package's rows yield: one `Basic` note per field blob, in
/// row order, under the given name.
pub fn deck_from_package(name: String, blobs: Vec<String>) -> (r: Deck)
    ensures
        r@.name == name@,
        r@.parent is None,
        r@.subdecks.len() == 0,
        r@.notes.len() == blobs@.len(),
        forall|i: int|
            0 <= i < blobs@.len() ==> #[trigger] r@.notes[i] == spec_note_of_blob(blobs@[i]@),
{
    let mut deck = Deck::new(name);
    let mut i: usize = 0;
    while i < blobs.len()
        invariant
            i <= blobs@.len(),
            deck@.name == name@,
            deck@.parent is None,
            deck@.subdecks.len() == 0,
            deck@.notes.len() == i,
            forall|j: int|
                0 <= j < i ==> #[trigger] deck@.notes[j] == spec_note_of_blob(blobs@[j]@),
        decreases blobs@.len() - i,
    {
        let note = note_from_blob(blobs[i].as_str());
        deck.add_note(note);
        i = i + 1;
    }
    deck
}

} // verus!
