//! What holds of the keys.
use vstd::prelude::*;
#[allow(unused_imports)]
use crate::keys::{command, Command, Key};

verus! {

/// A character key types its character whenever the control key is not held.
pub proof fn characters_are_typed(c: char, done: Command)
    requires
        done == command(true, Key::Char(c), false),
    ensures
        done == Command::Type(c),
{
}

/// With the control key held, `c` quits, `a` and `e` go to the ends of the query, and every
/// other character is typed as it is without the control key.
pub proof fn control_changes_three_characters(c: char, done: Command)
    requires
        done == command(true, Key::Char(c), true),
    ensures
        c == 'c' ==> done == Command::Quit,
        c == 'a' ==> done == Command::CursorToStart,
        c == 'e' ==> done == Command::CursorToEnd,
        c != 'c' && c != 'a' && c != 'e' ==> done == Command::Type(c) && done == command(
            true,
            Key::Char(c),
            false,
        ),
{
}

/// The control key changes nothing for a key that is no character.
pub proof fn control_changes_characters_only(pressed: bool, key: Key)
    requires
        key !is Char,
    ensures
        command(pressed, key, true) == command(pressed, key, false),
{
}

/// A key does something when it is pressed, not when it is held or released.
pub proof fn only_pressed_keys_count(key: Key, control: bool)
    ensures
        command(false, key, control) == Command::Nothing,
        command(true, key, control) == Command::Nothing <==> key == Key::Other || (key is Function
            && key != Key::Function(2)),
{
}

/// By what keys each thing is done, and that it is done by no other.
pub proof fn each_command_has_its_keys(
    pressed: bool,
    key: Key,
    control: bool,
    done: Command,
    c: char,
)
    requires
        done == command(pressed, key, control),
    ensures
        done == Command::Quit <==> pressed && (key == Key::Escape || (key == Key::Char('c')
            && control)),
        done == Command::CursorToStart <==> pressed && key == Key::Char('a') && control,
        done == Command::CursorToEnd <==> pressed && key == Key::Char('e') && control,
        done == Command::Confirm <==> pressed && key == Key::Enter,
        done == Command::Backspace <==> pressed && key == Key::Backspace,
        done == Command::CursorLeft <==> pressed && key == Key::Left,
        done == Command::CursorRight <==> pressed && key == Key::Right,
        done == Command::SelectUp <==> pressed && key == Key::Up,
        done == Command::SelectDown <==> pressed && key == Key::Down,
        done == Command::ToggleSort <==> pressed && key == Key::Function(2),
        done == Command::Type(c) <==> pressed && key == Key::Char(c) && !(control && (c == 'c' || c
            == 'a' || c == 'e')),
{
}

} // verus!
