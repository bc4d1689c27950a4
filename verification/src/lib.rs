//! An append-only vector index: vectors are packed into immutable blocks and
//! files addressed by dense ids, and an HNSW proximity graph is grown over
//! them.
//!
//! The crate decides and computes; it stores nothing, measures no distance
//! and draws no random number. Where an operation needs the world outside,
//! it is a machine that is stepped: it hands out what is to be done and is
//! told the outcome. Every function is proved against its contract, but for
//! the reading of byte buffers in [`buffer`], which is taken on trust.

pub mod accessor;
pub mod block;
pub mod buffer;
pub mod codec;
pub mod cursor;
pub mod distance;
pub mod error;
pub mod file;
pub mod graph;
pub mod insert;
pub mod nearest;
pub mod pb;
pub mod search;
pub mod store;
pub mod writer;
