//! The rules engine of a Sokoban game: a level parser and the move/push
//! state machine, with contracts stated over a mathematical model of the game.

use vstd::prelude::*;

pub mod elements;
pub mod level;
pub mod universe;
pub mod laws;

verus! {

} // verus!
