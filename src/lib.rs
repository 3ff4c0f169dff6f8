//! Small verified building blocks: borrowed text, a rectangle, and
//! threshold extension of a vector of strings that never keeps a reference
//! into the vector across a mutation of it.
pub mod strslice;
pub mod structs;
pub mod threshold;
pub mod strategy;
pub mod laws;
