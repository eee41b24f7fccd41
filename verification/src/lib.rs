//! Verified core of a custom-repository manager for binary packages.
//!
//! The library models the repository transaction and reconciliation engine:
//! package-file identities and their version-agnostic glob patterns, the
//! alpm-style version comparison that drives update resolution, the PID lock
//! protocol, the download/work/upload transaction ordering, the reverse
//! dependency index, the build-output planner, and the three-pass consistency
//! checker.  All values crossing the boundary are plain bytes, integers and
//! booleans; process invocation, file-system and network work stay outside.

pub mod aur;
pub mod builder;
pub mod bytes;
pub mod checker;
pub mod common;
pub mod conf;
pub mod db;
pub mod deps;
pub mod error;
pub mod glob;
pub mod identity;
pub mod lock;
pub mod repo;
pub mod server;
pub mod txn;
pub mod version;
