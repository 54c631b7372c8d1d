//! The interaction modes and what each key does in each of them.

use vstd::prelude::*;

verus! {

/// The transient mode of the browser.
#[derive(Clone, Copy, Debug, PartialEq, Eq, Structural)]
pub enum ModeState {
    /// Keys navigate.
    Normal,
    /// A `g` was pressed and the next key decides where the cursor jumps.
    PendingGoTo,
    /// Keys go to the search field.
    SearchActive,
}

/// A key as the terminal reports it.
#[derive(Clone, Copy, Debug, PartialEq, Eq, Structural)]
pub enum Key {
    Char(char),
    /// A character pressed together with the control key.
    Ctrl(char),
    Enter,
    Escape,
    Left,
    Right,
    /// Any key that the browser has no use for.
    Other,
}

/// What the browser is to do after a key.
#[derive(Clone, Copy, Debug, PartialEq, Eq, Structural)]
pub enum Command {
    /// Nothing beyond the change of mode.
    Nothing,
    MoveDown,
    MoveUp,
    SelectFirst,
    SelectLast,
    EnterChild,
    GoToParent,
    ToggleHidden,
    /// The key belongs to the search field.
    EditQuery,
    /// Leave, and hand the chosen directory to the caller.
    Exit,
    /// Leave without a directory.
    Quit,
}

/// The mode after `key` was pressed in `mode`.
pub open spec fn next_mode(mode: ModeState, key: Key) -> ModeState {
    match mode {
        ModeState::Normal => if key == Key::Char('g') {
            ModeState::PendingGoTo
        } else if key == Key::Char('/') {
            ModeState::SearchActive
        } else {
            ModeState::Normal
        },
        ModeState::PendingGoTo => ModeState::Normal,
        ModeState::SearchActive => if key == Key::Escape || key == Key::Enter {
            ModeState::Normal
        } else {
            ModeState::SearchActive
        },
    }
}

/// What `key` asks for when pressed in `mode`.
pub open spec fn command_for(mode: ModeState, key: Key) -> Command {
    match mode {
        ModeState::Normal => match key {
            Key::Char(c) => if c == 'j' {
                Command::MoveDown
            } else if c == 'k' {
                Command::MoveUp
            } else if c == 'l' {
                Command::EnterChild
            } else if c == 'h' {
                Command::GoToParent
            } else if c == 'q' {
                Command::Exit
            } else {
                Command::Nothing
            },
            Key::Ctrl(c) => if c == 'h' {
                Command::ToggleHidden
            } else {
                Command::Nothing
            },
            Key::Enter => Command::Exit,
            Key::Escape => Command::Quit,
            Key::Left => Command::GoToParent,
            Key::Right => Command::EnterChild,
            Key::Other => Command::Nothing,
        },
        ModeState::PendingGoTo => if key == Key::Char('g') {
            Command::SelectFirst
        } else if key == Key::Char('G') || key == Key::Char('e') {
            Command::SelectLast
        } else {
            Command::Nothing
        },
        ModeState::SearchActive => if key == Key::Escape || key == Key::Enter {
            Command::Nothing
        } else {
            Command::EditQuery
        },
    }
}

/// The mode that follows `mode` on `key`, and what the key asks for.
///
/// A `g` in normal mode waits for a second key: `g` then jumps to the first
/// entry, `G` or `e` to the last, and any other key only ends the wait. A
/// `/` opens the search, which Escape or Enter closes.
pub fn transition(mode: ModeState, key: Key) -> (step: (ModeState, Command))
    ensures
        step.0 == next_mode(mode, key),
        step.1 == command_for(mode, key),
        mode == ModeState::PendingGoTo ==> step.0 == ModeState::Normal,
        step.0 == ModeState::PendingGoTo <==> mode == ModeState::Normal && key == Key::Char('g'),
        step.1 == Command::SelectFirst <==> mode == ModeState::PendingGoTo && key == Key::Char(
            'g',
        ),
        step.1 == Command::SelectLast <==> mode == ModeState::PendingGoTo && (key == Key::Char('G')
            || key == Key::Char('e')),
        step.0 == ModeState::SearchActive <==> (mode == ModeState::Normal && key == Key::Char('/'))
            || (mode == ModeState::SearchActive && key != Key::Escape && key != Key::Enter),
        mode != ModeState::Normal ==> step.1 == Command::Nothing || step.1 == Command::SelectFirst
            || step.1 == Command::SelectLast || step.1 == Command::EditQuery,
{
    match mode {
        ModeState::Normal => match key {
            Key::Char('g') => (ModeState::PendingGoTo, Command::Nothing),
            Key::Char('/') => (ModeState::SearchActive, Command::Nothing),
            Key::Char('j') => (ModeState::Normal, Command::MoveDown),
            Key::Char('k') => (ModeState::Normal, Command::MoveUp),
            Key::Char('l') | Key::Right => (ModeState::Normal, Command::EnterChild),
            Key::Char('h') | Key::Left => (ModeState::Normal, Command::GoToParent),
            Key::Ctrl('h') => (ModeState::Normal, Command::ToggleHidden),
            Key::Char('q') | Key::Enter => (ModeState::Normal, Command::Exit),
            Key::Escape => (ModeState::Normal, Command::Quit),
            _ => (ModeState::Normal, Command::Nothing),
        },
        ModeState::PendingGoTo => match key {
            Key::Char('g') => (ModeState::Normal, Command::SelectFirst),
            Key::Char('G') | Key::Char('e') => (ModeState::Normal, Command::SelectLast),
            _ => (ModeState::Normal, Command::Nothing),
        },
        ModeState::SearchActive => match key {
            Key::Escape | Key::Enter => (ModeState::Normal, Command::Nothing),
            _ => (ModeState::SearchActive, Command::EditQuery),
        },
    }
}

} // verus!
