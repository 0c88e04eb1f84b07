//! A voxel world on a lattice of unit cells, with a graph of face adjacencies
//! that wraps around like a torus, and a ray-marching engine over it.
//!
//! Positions inside a cell are fixed-point: one cell edge is [`lattice::UNIT`].
pub mod lattice;
pub mod world;
pub mod raycast;
pub mod rules;
pub mod player;
pub mod render;
pub mod terrain;
mod random;
