//! Atomic write batches for a log-structured key-value store.
//!
//! A batch groups an ordered run of key insertions and deletions so that a
//! caller can encode them as one write-ahead-log record, or replay them into
//! an in-memory table under consecutive sequence numbers, as one unit.

pub mod batch;
pub mod decode;
pub mod memtable;
pub mod varint;


