//! A terminal "Lights Out" puzzle library: an N-by-N grid of toggleable
//! cells, a solvable-board generator, the mapping between physical terminal
//! coordinates and board cells, and the input state machine that drives a
//! session from key presses, mouse clicks and resizes.

pub mod board;
pub mod layout;
pub mod rng;
pub mod session;
