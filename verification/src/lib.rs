//! Blockchain-indexing middleware core.
//!
//! The library keeps a relational store of key blocks, micro blocks and
//! transactions in step with the chain a full node reports: it scans for
//! height gaps at startup, drains a height queue into the store, detects
//! forks and rolls the store back to the node's canonical view, and backs
//! the read API with queries over the stored rows.

pub mod audit;
pub mod chain;
pub mod decode;
pub mod error;
pub mod fork;
pub mod heightspec;
pub mod ident;
pub mod node;
pub mod queries;
pub mod queue;
pub mod recovery;
pub mod store;
pub mod sync;
