//! Conway's Game of Life on a torus.
//!
//! A [`board::Board`] holds a rectangular grid of live and dead cells whose
//! edges wrap around to the opposite side. It can be built from given cells
//! or drawn at random, counts the live neighbours of its cells, steps to the
//! next generation and renders itself as text.
//!
//! - [`grid`] is the mathematical model: grids as sequences of rows, toroidal
//!   adjacency and the rule for the next generation.
//! - [`scatter`] proves the way in which the board counts neighbours against
//!   that model.
//! - [`board`] is the executable board.
//! - [`random`] draws a board with a given density of live cells.
//! - [`render`] turns a board into text.

pub mod grid;
pub mod scatter;
pub mod board;
pub mod random;
pub mod render;
