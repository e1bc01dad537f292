//! A verified core for Conway's Game of Life on an unbounded grid.
//!
//! The simulation state is a finite set of living grid coordinates.
//! One generation step keeps exactly the cells that the standard
//! survival/birth rule allows: a cell is alive in the next generation
//! iff it has exactly three living neighbors, or exactly two and it is
//! alive already.

pub mod cell;
pub mod click;
pub mod laws;
pub mod life;

pub use cell::Cell;
pub use click::ClickTracker;
pub use life::LivingCellLocations;
