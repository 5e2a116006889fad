//! Board engine, difficulty waves and weighted piece generation for an 8×8
//! block-placement puzzle.
use vstd::prelude::*;

pub mod ratio;
pub mod random;
pub mod shape;
pub mod grid;
pub mod region;
pub mod wave;
pub mod generator;
pub mod rescue;
pub mod session;
pub mod log;
pub mod week;

verus! {

/// Which shape pool plain piece generation draws from.
#[derive(PartialEq, Eq, Structural, Copy, Clone, Debug)]
pub enum GameMode {
    Easy,
    Normal,
    Happy,
}

} // verus!
