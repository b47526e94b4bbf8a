//! The main menu: what the pointer does to the play button, and what that
//! asks of the state gate.

use vstd::prelude::*;
use crate::state::{AppState, StateGate};

verus! {

/// What the pointer does to a button.
#[derive(Clone, Copy, Debug, PartialEq, Eq, Hash, Structural)]
pub enum Interaction {
    Clicked,
    Hovered,
    Idle,
}

/// Looks at the buttons whose interaction changed: a click on any of them
/// asks for the game to start. A pointer that hovers or stays away asks for
/// nothing.
pub fn menu(state: &mut StateGate, interactions: &Vec<Interaction>)
    ensures
        interactions@.contains(Interaction::Clicked) ==> *final(state) == old(state).after_set(
            AppState::InGame,
        ),
        !interactions@.contains(Interaction::Clicked) ==> *final(state) == *old(state),
{
    let mut i: usize = 0;
    while i < interactions.len()
        invariant
            i <= interactions.len(),
            (exists|k: int| 0 <= k < i && interactions@[k] == Interaction::Clicked) ==> *state == old(
                state,
            ).after_set(AppState::InGame),
            (forall|k: int| 0 <= k < i ==> interactions@[k] != Interaction::Clicked) ==> *state == *old(
                state,
            ),
        decreases interactions.len() - i,
    {
        match interactions[i] {
            Interaction::Clicked => {
                state.set(AppState::InGame);
            },
            Interaction::Hovered => {},
            Interaction::Idle => {},
        }
        i += 1;
    }
}

} // verus!
