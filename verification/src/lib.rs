//! A verified Conway's Game of Life engine: a toroidal grid of boolean cell
//! states that evolves generation by generation under the standard
//! neighbor-counting rule.

pub mod bitset;
pub mod random;
pub mod rules;
pub mod text;
pub mod universe;

pub use universe::Universe;
