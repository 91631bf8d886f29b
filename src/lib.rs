//! A Game of Life grid, its generation step, and the mapping of its cells onto
//! a partitioned terminal surface.

pub mod grid;
pub mod input;
pub mod layout;
