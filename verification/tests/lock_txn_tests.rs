use repman::error::RepoError;
use repman::lock::{acquire, release};
use repman::txn::{tx_action, tx_step, TxAction, TxPhase};

#[test]
fn acquire_fresh_lock() {
    assert_eq!(acquire(None, 100), Ok(100));
}

#[test]
fn acquire_is_idempotent_for_the_holder() {
    assert_eq!(acquire(Some(100), 100), Ok(100));
}

#[test]
fn acquire_conflicts_with_another_pid() {
    assert_eq!(acquire(Some(42), 100), Err(RepoError::LockConflict { pid: 42 }));
    // liveness of the recorded process is never examined: a dead holder
    // still blocks
    assert_eq!(acquire(Some(1), 100), Err(RepoError::LockConflict { pid: 1 }));
}

#[test]
fn release_own_lock() {
    assert_eq!(release(Some(100), 100), Ok(()));
}

#[test]
fn release_alien_lock_is_a_mismatch() {
    assert_eq!(
        release(Some(42), 100),
        Err(RepoError::LockOwnershipMismatch { pid: 42 })
    );
}

#[test]
fn release_unheld_lock_reports_not_found() {
    assert_eq!(release(None, 100), Err(RepoError::NotFound));
}

#[test]
fn transaction_happy_path_orders_the_steps() {
    let mut phase = TxPhase::Idle;
    let mut actions: Vec<TxAction> = Vec::new();
    loop {
        let a = tx_action(&phase);
        if a == TxAction::Finished {
            break;
        }
        actions.push(a);
        phase = tx_step(&phase, true);
    }
    assert_eq!(
        actions,
        vec![
            TxAction::AcquireLock,
            TxAction::Download,
            TxAction::RunWork,
            TxAction::Upload,
            TxAction::ReleaseLock,
        ]
    );
    assert_eq!(phase, TxPhase::Done { ok: true });
}

#[test]
fn transaction_lock_failure_runs_nothing() {
    let phase = tx_step(&TxPhase::Idle, false);
    assert_eq!(phase, TxPhase::Done { ok: false });
    assert_eq!(tx_action(&phase), TxAction::Finished);
}

#[test]
fn transaction_uploads_after_failed_work() {
    // the work failed; the mirror is still published
    let phase = tx_step(&TxPhase::Downloaded, false);
    assert_eq!(phase, TxPhase::Worked { work_ok: false });
    assert_eq!(tx_action(&phase), TxAction::Upload);
    let phase = tx_step(&phase, true);
    assert_eq!(tx_action(&phase), TxAction::ReleaseLock);
    let phase = tx_step(&phase, true);
    assert_eq!(phase, TxPhase::Done { ok: false });
}

#[test]
fn transaction_download_failure_still_releases() {
    let phase = tx_step(&TxPhase::Locked, false);
    assert_eq!(tx_action(&phase), TxAction::ReleaseLock);
    let phase = tx_step(&phase, true);
    assert_eq!(phase, TxPhase::Done { ok: false });
}
