//! A soft body of point masses.
//!
//! The library keeps the books of the body and leaves the arithmetic to its
//! user: it holds the cells, their links and the one cell that the pointer
//! holds; it decides which cell may move and which pairs of cells are looked
//! at; and it finds neighbours through a uniform hash grid whose buckets are
//! forgotten in one step. Positions and lengths are of a scalar type that the
//! user picks, and are stored and handed back as they came.

pub mod entity;
pub mod frame;
pub mod grid_laws;
pub mod input;
pub mod lattice;
pub mod pacing;
pub mod slime;
pub mod slime_laws;
pub mod spatial_grid;
pub mod vector;
