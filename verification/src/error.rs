//! Error taxonomy of the repository engine.

use vstd::prelude::*;

verus! {

/// Failures of the repository engine.  Errors that concern one package or one
/// file of a batch are recovered by skipping that item; the others abort the
/// whole operation.
#[derive(Clone, Copy, Debug, PartialEq, Eq, Structural)]
pub enum RepoError {
    /// The repository configuration is missing or cannot be interpreted.
    Config,
    /// A server URL names a scheme that no backend supports.
    UnsupportedScheme,
    /// An external tool that a backend requires is not installed.
    MissingDependency,
    /// A transfer to or from the remote mirror failed.
    RemoteSync,
    /// The repository is locked by another process; `pid` is the holder.
    LockConflict { pid: u64 },
    /// A lock was released while a different process' PID was recorded in it.
    LockOwnershipMismatch { pid: u64 },
    /// Signing was requested but no signing key is configured.
    SigningKeyMissing,
    /// A build source declares no output package at all.
    NoOutputsDeclared,
    /// A path does not match the canonical package-file pattern.
    InvalidPackageFile,
    /// A package, file or record is absent.
    NotFound,
    /// A build step failed for one build source.
    BuildFailure,
    /// The database and the on-disk files disagree.
    DatabaseInconsistency,
}

impl RepoError {
    /// A short human-readable description of the error kind.
    pub fn message(&self) -> &'static str {
        match self {
            RepoError::Config => "repository configuration is missing or malformed",
            RepoError::UnsupportedScheme => "server URL has an unsupported scheme",
            RepoError::MissingDependency => "a required external tool is not installed",
            RepoError::RemoteSync => "synchronization with the remote mirror failed",
            RepoError::LockConflict { .. } => "repository is locked by another process",
            RepoError::LockOwnershipMismatch { .. } => "lock is owned by another process",
            RepoError::SigningKeyMissing => "signing was requested but no key is configured",
            RepoError::NoOutputsDeclared => "build source does not define any package",
            RepoError::InvalidPackageFile => "not a valid package file path",
            RepoError::NotFound => "package, file or record not found",
            RepoError::BuildFailure => "build step failed",
            RepoError::DatabaseInconsistency => "repository DB and files are inconsistent",
        }
    }
}

} // verus!
