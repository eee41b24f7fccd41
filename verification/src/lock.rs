//! The PID lock protocol.
//!
//! Each repository has one lock file holding the PID of the owning process.
//! These functions decide, from the recorded PID, how an acquisition or a
//! release must end; reading and writing the file itself is the caller's
//! side.  A lock left behind by a crashed process is never broken here: it
//! blocks the repository until it is removed by hand.

use crate::error::RepoError;
use vstd::prelude::*;

verus! {

/// Decides acquisition of the repository lock.  `holder` is the PID recorded
/// in the lock file, `None` when no lock file exists, and `pid` the acquiring
/// process.  Returns the PID to record: a fresh lock is taken, re-entry by
/// the same process succeeds, and any other recorded PID — live or dead —
/// means conflict.
pub fn acquire(holder: Option<u64>, pid: u64) -> (r: Result<u64, RepoError>)
    ensures
        r == (match holder {
            None => Ok::<u64, RepoError>(pid),
            Some(q) => if q == pid {
                Ok::<u64, RepoError>(pid)
            } else {
                Err::<u64, RepoError>(RepoError::LockConflict { pid: q })
            },
        }),
{
    match holder {
        None => Ok(pid),
        Some(q) => if q == pid {
            Ok(pid)
        } else {
            Err(RepoError::LockConflict { pid: q })
        },
    }
}

/// Decides release of the repository lock.  Releasing a lock that records a
/// different PID fails with an ownership mismatch; releasing when no lock
/// file exists reports that nothing was there to remove.  `Ok` means the
/// lock file is to be deleted.
pub fn release(holder: Option<u64>, pid: u64) -> (r: Result<(), RepoError>)
    ensures
        r == (match holder {
            None => Err::<(), RepoError>(RepoError::NotFound),
            Some(q) => if q == pid {
                Ok::<(), RepoError>(())
            } else {
                Err::<(), RepoError>(RepoError::LockOwnershipMismatch { pid: q })
            },
        }),
{
    match holder {
        None => Err(RepoError::NotFound),
        Some(q) => if q == pid {
            Ok(())
        } else {
            Err(RepoError::LockOwnershipMismatch { pid: q })
        },
    }
}

} // verus!
