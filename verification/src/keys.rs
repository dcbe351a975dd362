//! What the keys do while a session is looked for.
use vstd::prelude::*;

verus! {

/// A key.
#[derive(Debug, Clone, Copy, PartialEq, Eq, Structural)]
pub enum Key {
    Escape,
    Enter,
    Backspace,
    Left,
    Right,
    Up,
    Down,
    Function(u8),
    Char(char),
    Other,
}

/// What a key does.
#[derive(Debug, Clone, Copy, PartialEq, Eq, Structural)]
pub enum Command {
    Quit,
    CursorToStart,
    CursorToEnd,
    Confirm,
    Backspace,
    CursorLeft,
    CursorRight,
    SelectUp,
    SelectDown,
    ToggleSort,
    Type(char),
    Nothing,
}

/// What a key does: `pressed` as opposed to held or released, `control` with the control
/// key held.
pub open spec fn command(pressed: bool, key: Key, control: bool) -> Command {
    if !pressed {
        Command::Nothing
    } else {
        match key {
            Key::Escape => Command::Quit,
            Key::Enter => Command::Confirm,
            Key::Backspace => Command::Backspace,
            Key::Left => Command::CursorLeft,
            Key::Right => Command::CursorRight,
            Key::Up => Command::SelectUp,
            Key::Down => Command::SelectDown,
            Key::Function(n) => if n == 2 {
                Command::ToggleSort
            } else {
                Command::Nothing
            },
            Key::Char(c) => if control && c == 'c' {
                Command::Quit
            } else if control && c == 'a' {
                Command::CursorToStart
            } else if control && c == 'e' {
                Command::CursorToEnd
            } else {
                Command::Type(c)
            },
            Key::Other => Command::Nothing,
        }
    }
}

/// What a key does.
pub fn command_for(pressed: bool, key: Key, control: bool) -> (done: Command)
    ensures
        !pressed ==> done == Command::Nothing,
        pressed && !control ==> (key matches Key::Char(c) ==> done == Command::Type(c)),
        done == command(pressed, key, control),
{
    if !pressed {
        return Command::Nothing;
    }
    match key {
        Key::Escape => Command::Quit,
        Key::Enter => Command::Confirm,
        Key::Backspace => Command::Backspace,
        Key::Left => Command::CursorLeft,
        Key::Right => Command::CursorRight,
        Key::Up => Command::SelectUp,
        Key::Down => Command::SelectDown,
        Key::Function(n) => if n == 2 {
            Command::ToggleSort
        } else {
            Command::Nothing
        },
        Key::Char(c) => if !control {
            Command::Type(c)
        } else if c == 'c' {
            Command::Quit
        } else if c == 'a' {
            Command::CursorToStart
        } else if c == 'e' {
            Command::CursorToEnd
        } else {
            Command::Type(c)
        },
        Key::Other => Command::Nothing,
    }
}

} // verus!
