//! A minesweeper board engine with machine-checked behaviour.
//!
//! [`minesweeper::Minesweeper`] owns the grid, places mines, reveals cells
//! (cascading through regions without adjacent mines), tracks flags and
//! renders a textual view. Every operation is specified against the abstract
//! board of [`model::BoardState`], and the general properties of the game are
//! proved in [`laws`].

pub mod cascade;
pub mod cells;
pub mod laws;
pub mod lemmas;
pub mod minesweeper;
pub mod model;
pub mod random;
pub mod render;
