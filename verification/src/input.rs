//! What the keys do: which key turns the player which way, which one
//! pauses, and which ones end the session.

use crate::game_state::GameState;
use crate::session::set_direction;
use vstd::prelude::*;

verus! {

/// A key, as far as the session tells keys apart.
#[derive(Copy, Clone, Debug, PartialEq, Eq, Structural)]
pub enum Key {
    Up,
    Down,
    Left,
    Right,
    Escape,
    Char(char),
    Other,
}

/// What a key asks for.
#[derive(Copy, Clone, Debug, PartialEq, Eq, Structural)]
pub enum Command {
    /// End the session.
    Quit,
    /// Turn the player towards the row and column step given.
    Turn(i16, i16),
    /// Hold the session until the pause key is pressed again.
    Pause,
    Nothing,
}

/// What `key` asks for: the arrows and `w`, `a`, `s`, `d` turn the player,
/// `p` pauses, `q` and escape quit, and no other key does anything.
pub open spec fn command_spec(key: Key) -> Command {
    match key {
        Key::Escape => Command::Quit,
        Key::Up => Command::Turn(-1i16, 0i16),
        Key::Down => Command::Turn(1i16, 0i16),
        Key::Left => Command::Turn(0i16, -1i16),
        Key::Right => Command::Turn(0i16, 1i16),
        Key::Char(c) => if c == 'q' {
            Command::Quit
        } else if c == 'w' {
            Command::Turn(-1i16, 0i16)
        } else if c == 's' {
            Command::Turn(1i16, 0i16)
        } else if c == 'a' {
            Command::Turn(0i16, -1i16)
        } else if c == 'd' {
            Command::Turn(0i16, 1i16)
        } else if c == 'p' {
            Command::Pause
        } else {
            Command::Nothing
        },
        Key::Other => Command::Nothing,
    }
}

/// What `key` asks for.
pub fn command_for(key: Key) -> (command: Command)
    ensures
        command == command_spec(key),
{
    match key {
        Key::Escape => Command::Quit,
        Key::Up => Command::Turn(-1, 0),
        Key::Down => Command::Turn(1, 0),
        Key::Left => Command::Turn(0, -1),
        Key::Right => Command::Turn(0, 1),
        Key::Char(c) => if c == 'q' {
            Command::Quit
        } else if c == 'w' {
            Command::Turn(-1, 0)
        } else if c == 's' {
            Command::Turn(1, 0)
        } else if c == 'a' {
            Command::Turn(0, -1)
        } else if c == 'd' {
            Command::Turn(0, 1)
        } else if c == 'p' {
            Command::Pause
        } else {
            Command::Nothing
        },
        Key::Other => Command::Nothing,
    }
}

/// Takes a key press: a key that turns the player does so, every other key
/// leaves the session as it is. Says what the key asks for.
pub fn press_key(state: &mut GameState, key: Key) -> (command: Command)
    requires
        old(state).wf(),
    ensures
        final(state).wf(),
        command == command_spec(key),
        *final(state) == match command {
            Command::Turn(dir_r, dir_c) => GameState { pac_dir_r: dir_r, pac_dir_c: dir_c, ..*old(state) },
            _ => *old(state),
        },
{
    let command = command_for(key);
    if let Command::Turn(dir_r, dir_c) = command {
        set_direction(state, dir_r, dir_c);
    }
    command
}

} // verus!
