//! Freivalds' algorithm: a randomised check that a claimed matrix product
//! `C` equals `A * B` over a prime field, in quadratic instead of cubic time.
//!
//! A [`Freivald`] holds verification vectors, each the powers
//! `[1, r, r^2, ...]` of a random scalar `r`. To check a claim it compares
//! `A * (B * v)` with `C * v` for each of its vectors `v`. An exact product
//! always passes; a wrong one passes for fewer scalars than the matrices
//! have rows.
//!
//! - [`field`]: the elements of the field, the base field of BLS12-381.
//! - [`algebra`]: vectors, matrices and their products as mathematics.
//! - [`arrays`]: vectors and matrices as stored, in `ndarray` arrays.
//! - [`freivald`]: the verifier.
//! - [`error_bound`]: how many scalars accept a wrong product.

pub mod algebra;
pub mod arrays;
pub mod error_bound;
pub mod field;
pub mod freivald;

pub use arrays::{Matrix, Vector};
pub use field::FieldElement;
pub use freivald::{check_matrix_dimensions, geometric_vector, Freivald};
