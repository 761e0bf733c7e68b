//! Sparse storage addressed by signed coordinates.
//!
//! The building block is [`axis::NegativeIndexVec`], a one-dimensional
//! growable array that accepts any signed index by keeping two sides: one
//! for indices `>= 0` and one for indices `< 0`. [`grid::Grid`] composes
//! the same idea twice to form a two-dimensional sparse plane, lazily
//! creating a column per written x coordinate and tracking the bounding
//! box of every coordinate pair ever written.

pub mod axis;
pub mod grid;
