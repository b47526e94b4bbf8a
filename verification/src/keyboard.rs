//! Reading the arrow keys from the keyboard state that the engine keeps.

use vstd::prelude::*;
use bevy_input::keyboard::KeyCode;
use bevy_input::Input;
use crate::grid::Direction;
use crate::snake::{steer, steered, ArrowKeys, PlayerHead};

verus! {

#[verifier::external_type_specification]
#[verifier::external_body]
#[verifier::reject_recursive_types(T)]
pub struct ExInput<T>(Input<T>);

#[verifier::external_type_specification]
#[verifier::external_body]
pub struct ExKeyCode(KeyCode);

/// The arrow keys that a keyboard state holds as pressed, each named by the
/// heading it stands for.
pub uninterp spec fn arrows_down(keyboard: Input<KeyCode>) -> Set<Direction>;

/// Calls `Input::pressed` of bevy_input with the key code of the arrow key
/// for `arrow`. The call looks the key code up in the set of pressed keys
/// that the keyboard state holds, and changes nothing; the contract names
/// that set and says no more.
#[verifier::external_body]
fn arrow_pressed(keyboard: &Input<KeyCode>, arrow: Direction) -> (held: bool)
    ensures
        held == arrows_down(*keyboard).contains(arrow),
{
    keyboard.pressed(
        match arrow {
            Direction::Left => KeyCode::Left,
            Direction::Up => KeyCode::Up,
            Direction::Right => KeyCode::Right,
            Direction::Down => KeyCode::Down,
        },
    )
}

/// The arrow keys as flags, given the set of those that are pressed.
pub open spec fn keys_of(down: Set<Direction>) -> ArrowKeys {
    ArrowKeys {
        left: down.contains(Direction::Left),
        down: down.contains(Direction::Down),
        up: down.contains(Direction::Up),
        right: down.contains(Direction::Right),
    }
}

/// Reads the four arrow keys.
pub fn held_arrows(keyboard: &Input<KeyCode>) -> (keys: ArrowKeys)
    ensures
        keys == keys_of(arrows_down(*keyboard)),
{
    ArrowKeys {
        left: arrow_pressed(keyboard, Direction::Left),
        down: arrow_pressed(keyboard, Direction::Down),
        up: arrow_pressed(keyboard, Direction::Up),
        right: arrow_pressed(keyboard, Direction::Right),
    }
}

/// Turns the head as the arrow keys that are pressed ask, but never straight
/// back onto the body.
pub fn player_movement_input(keyboard: &Input<KeyCode>, head: &mut PlayerHead)
    ensures
        final(head).direction == steered(old(head).direction, keys_of(arrows_down(*keyboard))),
{
    let keys = held_arrows(keyboard);
    steer(head, keys);
}

} // verus!
