//! An in-memory registry of the indexes of a transactional document database:
//! which indexes exist, on which tables, in which lifecycle state, and with
//! what definition. The registry is a derived view of the system index table
//! and must stay consistent with it; every mutation is validated first, and
//! key projection turns documents into per-index key material.

pub mod doc_keys;
pub mod document;
pub mod errors;
pub mod external;
pub mod keys;
pub mod laws;
pub mod metadata;
pub mod registry;
pub mod types;
