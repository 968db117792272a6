//! A 2048 game for a rotary encoder and a push button: the board and its moves
//! (`line`, `board`), the decoders of the two controls (`input`), the step that
//! applies an input to a game (`session`) and the text of a cell (`label`).
use vstd::prelude::*;

pub mod board;
pub mod input;
pub mod label;
pub mod line;
mod rng;
pub mod session;

verus! {

} // verus!
