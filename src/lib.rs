//! Conway's Game of Life on a toroidal grid whose cells are packed eight to a byte.

pub mod cell_store;
pub mod universe;

pub use cell_store::{Cell, CellStore};
pub use universe::{start_type_variants, LifeError, StartType, Universe, UNIVERSE_SIZE};
