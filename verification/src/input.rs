use vstd::prelude::*;

use crate::snake::Direction;

verus! {

/// The keys the game reacts to, as abstract intents decoupled from any input
/// device API. `Other` stands for every key the game ignores.
#[derive(Clone, Copy, Debug, PartialEq, Eq, Structural)]
pub enum Key {
    Up,
    Down,
    Left,
    Right,
    W,
    A,
    S,
    D,
    Space,
    Enter,
    Escape,
    Other,
}

/// The movement direction a key stands for, if any: the arrow keys and WASD
/// request a turn, every other key requests none.
pub open spec fn direction_request(k: Key) -> Option<Direction> {
    match k {
        Key::Up | Key::W => Some(Direction::Up),
        Key::Down | Key::S => Some(Direction::Down),
        Key::Left | Key::A => Some(Direction::Left),
        Key::Right | Key::D => Some(Direction::Right),
        _ => None,
    }
}

} // verus!
