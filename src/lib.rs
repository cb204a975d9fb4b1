//! The Poseidon2 permutation over the KoalaBear prime field in its "skinny" trace
//! layout: linear layers, the round schedule, trace rows and their constraints.

pub mod field;
pub mod linear;
pub mod permutation;
pub mod trace;
pub mod air;
pub mod chip;
pub mod bridge;
