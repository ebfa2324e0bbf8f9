use vstd::prelude::*;

verus! {

/// The kind of a note, controlling how many practice cards it yields.
#[derive(Clone, Copy, Debug, PartialEq, Eq, Structural)]
pub enum NoteType {
    Basic,
    BasicAndReverse,
}

/// Mathematical value of a `Card`: the two sides as character sequences.
#[verifier::ext_equal]
pub struct CardModel {
    pub front: Seq<char>,
    pub back: Seq<char>,
}

/// An ephemeral front/back pair derived from a note for practice; never stored.
#[derive(Debug, PartialEq, Eq)]
pub struct Card {
    pub front: String,
    pub back: String,
}

impl View for Card {
    type V = CardModel;

    open spec fn view(&self) -> CardModel {
        CardModel { front: self.front@, back: self.back@ }
    }
}

impl DeepView for Card {
    type V = CardModel;

    open spec fn deep_view(&self) -> CardModel {
        self@
    }
}

impl Clone for Card {
    fn clone(&self) -> (r: Self)
        ensures
            r@ == self@,
    {
        Card { front: self.front.clone(), back: self.back.clone() }
    }
}

/// Mathematical value of a `Note`.
#[verifier::ext_equal]
pub struct NoteModel {
    pub front: Seq<char>,
    pub back: Seq<char>,
    pub note_type: NoteType,
}

/// An authored front/back pair with a type tag controlling card derivation.
#[derive(Debug, PartialEq, Eq)]
pub struct Note {
    pub front: String,
    pub back: String,
    pub note_type: NoteType,
}

impl View for Note {
    type V = NoteModel;

    open spec fn view(&self) -> NoteModel {
        NoteModel { front: self.front@, back: self.back@, note_type: self.note_type }
    }
}

impl DeepView for Note {
    type V = NoteModel;

    open spec fn deep_view(&self) -> NoteModel {
        self@
    }
}

impl Clone for Note {
    fn clone(&self) -> (r: Self)
        ensures
            r@ == self@,
    {
        Note { front: self.front.clone(), back: self.back.clone(), note_type: self.note_type }
    }
}

/// The cards a note yields: one for `Basic`, two for `BasicAndReverse`,
/// the second being the field-swap of the first.
pub open spec fn spec_cards(n: NoteModel) -> Seq<CardModel> {
    match n.note_type {
        NoteType::Basic => seq![CardModel { front: n.front, back: n.back }],
        NoteType::BasicAndReverse => seq![
            CardModel { front: n.front, back: n.back },
            CardModel { front: n.back, back: n.front },
        ],
    }
}

/// A `Basic` note yields exactly one card, its own two sides;
/// a `BasicAndReverse` note yields exactly two, the second being the
/// field-swap of the first.
pub proof fn lemma_derived_cards(n: NoteModel)
    ensures
        n.note_type == NoteType::Basic ==> spec_cards(n) == seq![
            CardModel { front: n.front, back: n.back },
        ],
        n.note_type == NoteType::BasicAndReverse ==> spec_cards(n).len() == 2 && spec_cards(n)[0]
            == (CardModel { front: n.front, back: n.back }) && spec_cards(n)[1] == (CardModel {
            front: spec_cards(n)[0].back,
            back: spec_cards(n)[0].front,
        }),
{
}

impl Note {
    pub fn new(front: String, back: String, note_type: NoteType) -> (r: Self)
        ensures
            r@ == (NoteModel { front: front@, back: back@, note_type }),
    {
        Note { front, back, note_type }
    }

    pub fn get_cards(&self) -> (cards: Vec<Card>)
        ensures
            cards.deep_view() == spec_cards(self@),
    {
        let cards = match self.note_type {
            NoteType::Basic => vec![Card { front: self.front.clone(), back: self.back.clone() }],
            NoteType::BasicAndReverse => vec![
                Card { front: self.front.clone(), back: self.back.clone() },
                Card { front: self.back.clone(), back: self.front.clone() },
            ],
        };
        proof {
            assert(cards.deep_view() =~= spec_cards(self@));
        }
        cards
    }
}

} // verus!
