//! A falling-sand cellular automaton: a fixed-size grid of cells, each empty
//! or holding a grain of sand, advanced one frame at a time under gravity.

pub mod coin;
pub mod grid;
pub mod sim;
pub mod laws;
