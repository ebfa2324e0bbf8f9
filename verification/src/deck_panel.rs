use vstd::prelude::*;
use vstd::string::StringExecFns;

use crate::action::Action;
use crate::deck::{Deck, DeckModel};
use crate::input_state::{
    input_wf, left_model, pop_model, push_model, right_model, InputModel, InputState,
};
use crate::note::{Note, NoteModel, NoteType};

verus! {

/// Mathematical value of the note-entry state: the two buffers, which of
/// them is focused, and whether entry has finished.
#[verifier::ext_equal]
pub struct InsertNoteModel {
    pub front: InputModel,
    pub back: InputModel,
    pub focused_front: bool,
    pub completed: bool,
}

/// The state of entering a new note: front and back buffers and the focus.
#[derive(Debug, PartialEq, Eq)]
pub struct InsertNoteState {
    pub front: InputState,
    pub back: InputState,
    pub focused_front: bool,
    pub completed: bool,
}

impl View for InsertNoteState {
    type V = InsertNoteModel;

    open spec fn view(&self) -> InsertNoteModel {
        InsertNoteModel {
            front: self.front@,
            back: self.back@,
            focused_front: self.focused_front,
            completed: self.completed,
        }
    }
}

impl Clone for InsertNoteState {
    fn clone(&self) -> (r: Self)
        ensures
            r@ == self@,
    {
        InsertNoteState {
            front: self.front.clone(),
            back: self.back.clone(),
            focused_front: self.focused_front,
            completed: self.completed,
        }
    }
}

/// Both buffers keep their cursors inside their texts.
pub open spec fn insert_note_wf(m: InsertNoteModel) -> bool {
    input_wf(m.front) && input_wf(m.back)
}

impl InsertNoteState {
    pub open spec fn wf(&self) -> bool {
        insert_note_wf(self@)
    }

    pub fn new() -> (r: Self)
        ensures
            r@ == (InsertNoteModel {
                front: InputModel { text: Seq::empty(), cursor: 0 },
                back: InputModel { text: Seq::empty(), cursor: 0 },
                focused_front: true,
                completed: false,
            }),
            r.wf(),
    {
        InsertNoteState {
            front: InputState::new(),
            back: InputState::new(),
            focused_front: true,
            completed: false,
        }
    }
}

/// One step of note entry: which state follows, and the note to append to
/// the deck when this step commits one.
///
/// Characters, space, newline, backspace and cursor moves edit the focused
/// buffer. `Tab` flips the focus. `Enter` with the front focused and an
/// empty back buffer moves the focus to the back; any other `Enter`
/// commits the note and finishes. `Esc` finishes without a note.
pub open spec fn spec_note_insert_step(m: InsertNoteModel, a: Action) -> (
    InsertNoteModel,
    Option<NoteModel>,
) {
    match a {
        Action::Char(c) => (
            if m.focused_front {
                InsertNoteModel { front: push_model(m.front, c), ..m }
            } else {
                InsertNoteModel { back: push_model(m.back, c), ..m }
            },
            None,
        ),
        Action::Space => (
            if m.focused_front {
                InsertNoteModel { front: push_model(m.front, ' '), ..m }
            } else {
                InsertNoteModel { back: push_model(m.back, ' '), ..m }
            },
            None,
        ),
        Action::CtrlSpace => (
            if m.focused_front {
                InsertNoteModel { front: push_model(m.front, '\n'), ..m }
            } else {
                InsertNoteModel { back: push_model(m.back, '\n'), ..m }
            },
            None,
        ),
        Action::Backspace => (
            if m.focused_front {
                InsertNoteModel { front: pop_model(m.front), ..m }
            } else {
                InsertNoteModel { back: pop_model(m.back), ..m }
            },
            None,
        ),
        Action::Right => (
            if m.focused_front {
                InsertNoteModel { front: right_model(m.front), ..m }
            } else {
                InsertNoteModel { back: right_model(m.back), ..m }
            },
            None,
        ),
        Action::Left => (
            if m.focused_front {
                InsertNoteModel { front: left_model(m.front), ..m }
            } else {
                InsertNoteModel { back: left_model(m.back), ..m }
            },
            None,
        ),
        Action::Enter => if m.focused_front && m.back.text.len() == 0 {
            (InsertNoteModel { focused_front: false, ..m }, None)
        } else {
            (
                InsertNoteModel { completed: true, ..m },
                Some(
                    NoteModel {
                        front: m.front.text,
                        back: m.back.text,
                        note_type: NoteType::Basic,
                    },
                ),
            )
        },
        Action::Tab => (InsertNoteModel { focused_front: !m.focused_front, ..m }, None),
        Action::Esc => (InsertNoteModel { completed: true, ..m }, None),
        _ => (m, None),
    }
}

/// One note-entry step on its own: the entry state that follows the
/// action, and the note the step commits, if any.
pub fn note_insert_step(action: Action, state: InsertNoteState) -> (r: (
    InsertNoteState,
    Option<Note>,
))
    requires
        state.wf(),
    ensures
        r.0@ == spec_note_insert_step(state@, action).0,
        match (r.1, spec_note_insert_step(state@, action).1) {
            (Some(n), Some(nm)) => n@ == nm,
            (None, None) => true,
            _ => false,
        },
        r.0.wf(),
{
    let mut state = state;
    match action {
        Action::Char(c) => {
            if state.focused_front {
                state.front.push(c);
            } else {
                state.back.push(c);
            }
            (state, None)
        },
        Action::Space => {
            if state.focused_front {
                state.front.push(' ');
            } else {
                state.back.push(' ');
            }
            (state, None)
        },
        Action::CtrlSpace => {
            if state.focused_front {
                state.front.push('\n');
            } else {
                state.back.push('\n');
            }
            (state, None)
        },
        Action::Backspace => {
            if state.focused_front {
                state.front.pop();
            } else {
                state.back.pop();
            }
            (state, None)
        },
        Action::Right => {
            if state.focused_front {
                state.front.cursor_right();
            } else {
                state.back.cursor_right();
            }
            (state, None)
        },
        Action::Left => {
            if state.focused_front {
                state.front.cursor_left();
            } else {
                state.back.cursor_left();
            }
            (state, None)
        },
        Action::Enter => {
            let back_text = state.back.get_input();
            if state.focused_front && back_text.as_str().is_empty() {
                state.focused_front = false;
                (state, None)
            } else {
                let note = Note::new(
                    state.front.get_input(),
                    state.back.get_input(),
                    NoteType::Basic,
                );
                state.completed = true;
                (state, Some(note))
            }
        },
        Action::Tab => {
            state.focused_front = !state.focused_front;
            (state, None)
        },
        Action::Esc => {
            state.completed = true;
            (state, None)
        },
        _ => (state, None),
    }
}

/// Applies one note-entry action: edits the buffers, and on a committing
/// `Enter` appends the entered note to the deck.
pub fn update_deck_panel_note_insert(action: Action, state: InsertNoteState, deck: &mut Deck) -> (r:
    InsertNoteState)
    requires
        state.wf(),
    ensures
        r@ == spec_note_insert_step(state@, action).0,
        final(deck)@ == match spec_note_insert_step(state@, action).1 {
            Some(n) => DeckModel { notes: old(deck)@.notes.push(n), ..old(deck)@ },
            None => old(deck)@,
        },
        r.wf(),
{
    let (state2, note) = note_insert_step(action, state);
    match note {
        Some(n) => {
            deck.add_note(n);
        },
        None => {},
    }
    state2
}

/// A panel title in its bracketed display form.
pub fn format_title(title: &str) -> (r: String)
    ensures
        r@ == "["@ + title@ + "]"@,
{
    let mut s = String::from_str("[");
    s.append(title);
    s.append("]");
    s
}

} // verus!
