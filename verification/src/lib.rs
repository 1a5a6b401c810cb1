//! A minimal n-dimensional dense matrix: a flat row-major buffer together with
//! a canonical vector of dimension sizes.
//!
//! `shape` holds the mathematics of dimension sequences, `matrix` the container
//! and its constructors, `matrix::arith` element-wise addition and the zero-
//! and one-filled constructors, and `error` the way in which addition can fail.
pub mod error;
pub mod matrix;
pub mod shape;
