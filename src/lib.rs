//! An in-memory, append-only ledger of hash-linked blocks.
//!
//! Each block is sealed by a SHA-512 digest over an unambiguous byte
//! encoding of its index, timestamp, predecessor digest and payload, and
//! each block names the digest of the block before it.

pub mod block;
pub mod blockchain;
pub mod ingest;
