//! A key event log (KEL) resolver over a content-addressed commit graph.
//!
//! Each log entry is a sequence-numbered, signed, timestamped event
//! record, stored as a blob in the tree of the commit that appended it;
//! the commit ancestry doubles as the log's append history. Given a
//! snapshot of the object store and the well-known head reference, the
//! resolver locates the entry with a given sequence number or
//! reconstructs the whole log in ascending sequence-number order,
//! handling merges, undecodable blobs and broken chains.

pub mod entry;
pub mod error;
pub mod store;
pub mod keri_store;
pub mod ancestry;
pub mod reconstruct;
pub mod laws;
