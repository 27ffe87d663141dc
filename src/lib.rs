//! Core of a contract runtime: role-based access control, per-contract state
//! with hashed snapshots and diffs, a registry of semver-ordered contract
//! versions, admission control for concurrent operations, and the runtime
//! facade that composes them. Alongside: blocks, transactions and their
//! hashes, an in-memory key-value store, and consensus checks.

pub mod bytes;
pub mod table;
pub mod text;
pub mod digest;
pub mod crypto;
pub mod error;
pub mod msg;
pub mod types;
pub mod version;
pub mod access;
pub mod statemap;
pub mod state;
pub mod registry;
pub mod tracker;
pub mod runtime;
pub mod transaction;
pub mod block;
pub mod storage;
pub mod consensus;
