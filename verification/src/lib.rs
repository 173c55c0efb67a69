//! A falling-block puzzle engine.
//!
//! The crate holds the simulation only: the seven tetromino shapes and their
//! rotation states, the 20 x 10 board with row clearing, and the controller
//! that applies player input, locks pieces, scores and detects the end of a
//! game. It draws nothing, plays nothing and reads no device. A caller feeds it
//! input events and raw random numbers, and gets back the rectangles to paint
//! and the sound cue to play.
use vstd::prelude::*;

pub mod bag;
pub mod block;
pub mod canvas;
pub mod colors;
pub mod game;
pub mod grid;
pub mod position;
pub mod rules;

verus! {

} // verus!
