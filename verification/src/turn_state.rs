//! The phases of the game.

use vstd::prelude::*;

verus! {

/// The phase that the game is in.
#[derive(Copy, Clone, Debug, PartialEq, Eq, Structural)]
pub enum TurnState {
    Menu,
    AwaitingInput,
    PlayerTurn,
    MonsterTurn,
    GameOver,
    Victory,
    NextLevel,
}

} // verus!
