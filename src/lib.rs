//! A three-dimensional discrete energy lattice. Every site holds a small
//! number of quanta; each propagation step lets every site emit at most one
//! quantum to a lower-valued face neighbour that holds fewer than three,
//! computed in two passes over a pair of ping-pong buffers so that all sites
//! update as if simultaneously.
pub mod field;
pub mod geometry;
pub mod lattice;
pub mod laws;
pub mod rule;

pub use lattice::{DiscreteLatticeGPU, LatticeError};
