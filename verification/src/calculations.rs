//! Dense matrix container and the numeric routines operating on it.

pub mod linear_algebra;
pub mod matrix;
pub mod matrix_traits;
pub mod stats;
