//! Data-availability matrices: building the erasure-coded matrix of a block,
//! publishing it as a content-addressed graph, and recovering a column from part
//! of its cells.

pub mod dag;
pub mod domain;
pub mod field;
pub mod interpolate;
pub mod matrix;
pub mod publish;
pub mod reconstruct;

pub use crate::matrix::construct_matrix;
pub use crate::publish::push_matrix;
pub use crate::reconstruct::reconstruct_column;
