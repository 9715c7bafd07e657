//! A three-dimensional Game of Life on a cubic lattice whose unit cubes are
//! split into six tetrahedral sub-cells. The crate holds the automaton core:
//! the fixed adjacency topology of the six orientations, the universe grid
//! with its population and generation counters, the per-tick update rule with
//! toroidal wraparound, and the save/load codec that round-trips the state.

pub mod topology;
pub mod universe;
pub mod binder;
pub mod stepper;
pub mod saves;
pub mod codec;
