//! The Arrow C Data Interface: how batches leave and enter the engine.
//!
//! Three structs cross the boundary: [`ArrowSchema`](format::ArrowSchema)
//! (type description), [`ArrowArray`](array::ArrowArray) (data) and
//! [`ArrowArrayStream`](stream::ArrowArrayStream) (a pull-based stream of
//! batches). Here they hold plain values: strings are byte sequences,
//! buffers are typed sequences, and a struct is live until it is released.
pub mod array;
pub mod format;
pub mod stream;
