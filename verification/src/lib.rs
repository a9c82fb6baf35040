//! An embeddable store for signed social-protocol events: a bounded ingress
//! queue, a staged validation pipeline, a single-writer store whose
//! secondary indices change together with its records, and a query engine
//! that answers filters newest first.
//!
//! Parsing, hashing, signature checks, the acceptance filter, the codec and
//! the durable layer are the host's: the engine says which of them a task
//! waits for, and takes their answers as plain values.

pub mod config;
pub mod event;
pub mod index;
pub mod content;
pub mod secondary;
pub mod tag_index;
pub mod store;
pub mod filter;
pub mod query;
pub mod ingest;
pub mod ndb;
