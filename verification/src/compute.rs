//! Curated numeric operations: what each backend accepts, what it is handed,
//! and what its routines' replies mean. The arithmetic itself is done by the
//! libraries that implement the backends.
pub mod blas;
pub mod lapack;
pub mod linalg;
