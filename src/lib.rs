//! A JSON-like replicated document: an append-only log of operations, the
//! transactions that write to it, read queries over current and past versions,
//! and the run-length packing of integer columns.
pub mod types;
pub mod opset;
pub mod doc;
pub mod transaction;
pub mod iters;
pub mod column;
pub mod laws;
