//! Embedded scripting: how engine values and script values convert at the
//! boundary, and what scripts may do with whole columns.
//!
//! Whole columns cross per call, never single rows. The interpreter itself
//! is outside: what it hands over arrives here as plain values, and what it
//! is to do next is the answer.
pub mod driver;
pub mod host;
pub mod log;
pub mod state;
pub mod trial;
pub mod values;
pub mod vector;
