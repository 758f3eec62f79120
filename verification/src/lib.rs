//! TallyDB's in-memory column format and the rules around it: bitmaps,
//! buffers, key dictionaries, record batches, and what crosses each of the
//! library's boundaries.

pub mod bitmap;
pub mod buffer;
pub mod cdata;
pub mod column;
pub mod compute;
pub mod corpus;
pub mod float64;
pub mod harness;
pub mod key;
pub mod laws;
pub mod logical;
pub mod lua;
pub mod schema;
mod sealed;
pub mod text;
