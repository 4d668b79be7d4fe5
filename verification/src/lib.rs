//! Reconciliation of a local directory tree with a remote hierarchical file
//! store: classification of entry names, transfer planning, bounded retries
//! and the request parameters of the remote protocol.

pub mod binary;
pub mod classify;
pub mod decimal;
pub mod engine;
pub mod entry;
pub mod error;
pub mod file;
pub mod folder;
pub mod listing;
pub mod path;
pub mod remote;
pub mod request;
pub mod retry;
pub mod task;
pub mod world;
