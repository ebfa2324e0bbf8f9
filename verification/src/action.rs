use vstd::prelude::*;

verus! {

/// The screens the application can show.
#[derive(Debug, Clone, PartialEq, Eq)]
pub enum Screen {
    Home,
    Practice(u128),
}

/// The logical input actions and follow-up commands that flow through the
/// application: key presses are mapped to these outside the core, and the
/// core emits at most one follow-up (`Save`, `Screen`, `Quit`) per event.
#[derive(Debug, Clone, PartialEq, Eq)]
pub enum Action {
    Tick,
    Render,
    Resize(u16, u16),
    Suspend,
    Resume,
    Quit,
    ClearScreen,
    Error(String),
    Help,
    Char(char),
    Esc,
    Enter,
    Tab,
    Backspace,
    CtrlSpace,
    Up,
    Down,
    Right,
    Left,
    Space,
    Save,
    Load,
    Screen(Screen),
}

} // verus!
