//! A priority-ordered message store server library.
//!
//! Clients push variable-size messages tagged with a priority; the server
//! keeps at most a configured byte budget, evicting low-priority messages to
//! admit higher-priority ones; clients later pull the highest-priority
//! pending message or a specific message by identifier.
//!
//! The crate covers the storage-coordination and streaming-protocol layer:
//! the chunked wire format for submission and retrieval, the coordination of
//! the priority index (the outside `msg_store` crate), the persistent record
//! store and the file-blob index across insert, evict and delete, and the
//! whole-store export pipeline. Network and file I/O live outside this
//! crate; the library decides, callers perform.
//!
//! Re-prioritizing a held message is not an operation of this store: an id
//! carries the priority it was admitted under, so a move is a delete
//! followed by a fresh submission.

pub mod bytes_util;
pub mod config;
pub mod errors;
pub mod export;
pub mod file_storage;
pub mod group;
pub mod group_defaults;
pub mod args;
pub mod ids;
pub mod index;
pub mod laws;
pub mod msg;
pub mod proto;
pub mod record_db;
pub mod stats;
pub mod store;
pub mod wire;
