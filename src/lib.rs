//! Conway's Game of Life: a grid engine over a clipped 3x3 neighborhood.

mod grid;
pub mod life;
pub mod neighborhood;

pub use life::{World, WorldError};
pub use neighborhood::{clip, Neighborhood};
