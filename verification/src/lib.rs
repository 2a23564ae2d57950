//! A persistent approximate-nearest-neighbor vector store.
//!
//! Vectors tagged with caller-chosen identifiers are pushed through a
//! single-writer session, committed to disk as a payload file plus a
//! proximity-graph index file, and served back by reader sessions that
//! translate internal vector ids to external identifiers and suppress
//! logically deleted entries.

pub mod codec;
pub mod directory;
pub mod errors;
pub mod graph;
pub mod identifier;
pub mod index_map;
pub mod lock;
pub mod marker;
pub mod reader;
pub mod tombstones;
pub mod writer;
