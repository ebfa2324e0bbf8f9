use vstd::prelude::*;

use crate::action::{Action, Screen};
use crate::deck::{spec_notes_cards, Deck, DeckModel};
use crate::note::{Card, CardModel};

verus! {

/// The phase of a practice run: showing a card's front, its back, or the
/// completion notice after the last card.
#[derive(Debug, Clone, Copy, PartialEq, Eq, Structural)]
pub enum Mode {
    Front,
    Back,
    Complete,
}

/// Mathematical value of the practice player.
#[verifier::ext_equal]
pub struct PracticeModel {
    pub cnt: int,
    pub cards: Seq<CardModel>,
    pub mode: Mode,
}

/// The linear practice player: the card queue, the position in it, and
/// the phase.
#[derive(Debug, PartialEq, Eq)]
pub struct PracticeScreen {
    pub cnt: usize,
    pub cards: Vec<Card>,
    pub mode: Mode,
}

impl View for PracticeScreen {
    type V = PracticeModel;

    open spec fn view(&self) -> PracticeModel {
        PracticeModel { cnt: self.cnt as int, cards: self.cards.deep_view(), mode: self.mode }
    }
}

impl PracticeScreen {
    /// The position stays on a card while any remain.
    pub open spec fn wf(&self) -> bool {
        self@.cnt == 0 || self@.cnt < self@.cards.len()
    }
}

/// A freshly loaded run over a deck's own cards: position zero, fronts
/// first.
pub open spec fn reset_model(d: DeckModel) -> PracticeModel {
    PracticeModel { cnt: 0, cards: spec_notes_cards(d.notes), mode: Mode::Front }
}

/// The practice transition table: entering the screen or `r` (re)loads
/// the queue from the deck; `c` returns to the collection; `q` quits;
/// the flip key walks front, back, next card, and completion.
pub open spec fn spec_practice_step(p: PracticeModel, d: DeckModel, a: Action) -> (
    PracticeModel,
    Option<Action>,
) {
    match a {
        Action::Screen(s) => match s {
            Screen::Practice(_) => (reset_model(d), None),
            _ => (p, None),
        },
        Action::Char(ch) => if ch == 'r' {
            (reset_model(d), None)
        } else if ch == 'c' {
            (p, Some(Action::Screen(Screen::Home)))
        } else if ch == 'q' {
            (p, Some(Action::Quit))
        } else {
            (p, None)
        },
        Action::Space => match p.mode {
            Mode::Front => (PracticeModel { mode: Mode::Back, ..p }, None),
            Mode::Back => if p.cnt + 1 >= p.cards.len() {
                (PracticeModel { mode: Mode::Complete, ..p }, None)
            } else {
                (PracticeModel { cnt: p.cnt + 1, mode: Mode::Front, ..p }, None)
            },
            Mode::Complete => (p, None),
        },
        _ => (p, None),
    }
}

impl Default for PracticeScreen {
    fn default() -> (r: Self)
        ensures
            r@.cnt == 0,
            r@.cards.len() == 0,
            r@.mode == Mode::Front,
            r.wf(),
    {
        PracticeScreen { cnt: 0, cards: Vec::new(), mode: Mode::Front }
    }
}

impl PracticeScreen {
    /// Reloads the queue from the deck's own cards and starts over.
    fn reset(&mut self, deck: &Deck)
        ensures
            final(self)@ == reset_model(deck@),
            final(self).wf(),
    {
        self.cnt = 0;
        self.mode = Mode::Front;
        self.cards = deck.get_cards();
    }

    /// One practice step, per `spec_practice_step`.
    pub fn update(&mut self, deck: &Deck, action: Action) -> (r: Option<Action>)
        requires
            old(self).wf(),
        ensures
            final(self)@ == spec_practice_step(old(self)@, deck@, action).0,
            r == spec_practice_step(old(self)@, deck@, action).1,
            final(self).wf(),
    {
        match action {
            Action::Screen(s) => {
                match s {
                    Screen::Practice(_) => {
                        self.reset(deck);
                        None
                    },
                    _ => None,
                }
            },
            Action::Char(ch) => {
                if ch == 'r' {
                    self.reset(deck);
                    None
                } else if ch == 'c' {
                    Some(Action::Screen(Screen::Home))
                } else if ch == 'q' {
                    Some(Action::Quit)
                } else {
                    None
                }
            },
            Action::Space => {
                match self.mode {
                    Mode::Front => {
                        self.mode = Mode::Back;
                        None
                    },
                    Mode::Back => {
                        let len = self.cards.len();
                        proof {
                            assert(self@.cards.len() == self.cards@.len());
                        }
                        if self.cnt + 1 >= len {
                            self.mode = Mode::Complete;
                        } else {
                            self.cnt = self.cnt + 1;
                            self.mode = Mode::Front;
                        }
                        None
                    },
                    Mode::Complete => None,
                }
            },
            _ => None,
        }
    }

    /// The card at the current position, while one remains.
    pub fn current_card(&self) -> (r: Option<&Card>)
        ensures
            match r {
                Some(card) => self@.cnt < self@.cards.len() && card@ == self@.cards[self@.cnt],
                None => self@.cnt >= self@.cards.len(),
            },
    {
        if self.cnt < self.cards.len() {
            Some(&self.cards[self.cnt])
        } else {
            None
        }
    }
}

} // verus!
