//! The transaction that wraps every mutating repository operation.
//!
//! A mutating operation runs as lock → download → unit of work → upload →
//! release.  The phase machine here decides what comes next after each step
//! and enforces the ordering rules: nothing at all runs when the lock cannot
//! be acquired; the work only runs on a downloaded mirror; the upload runs
//! even when the work failed, publishing whatever was produced; the lock is
//! released on every path on which it was acquired.

use vstd::prelude::*;

verus! {

/// Where a transaction stands.
#[derive(Clone, Copy, Debug, PartialEq, Eq, Structural)]
pub enum TxPhase {
    /// Nothing has happened; the lock is not held.
    Idle,
    /// The lock is held; the mirror is not yet current.
    Locked,
    /// The mirror is current; the unit of work may run.
    Downloaded,
    /// The unit of work ran with the recorded outcome; the mirror is
    /// published next, whatever that outcome was.
    Worked { work_ok: bool },
    /// Only the lock remains to be released; `ok` is the outcome so far.
    Unlocking { ok: bool },
    /// The transaction is over with the recorded outcome.
    Done { ok: bool },
}

/// What a transaction in a given phase must do next.
#[derive(Clone, Copy, Debug, PartialEq, Eq, Structural)]
pub enum TxAction {
    AcquireLock,
    Download,
    RunWork,
    Upload,
    ReleaseLock,
    Finished,
}

/// The next action of each phase.
pub open spec fn tx_action_spec(phase: TxPhase) -> TxAction {
    match phase {
        TxPhase::Idle => TxAction::AcquireLock,
        TxPhase::Locked => TxAction::Download,
        TxPhase::Downloaded => TxAction::RunWork,
        TxPhase::Worked { .. } => TxAction::Upload,
        TxPhase::Unlocking { .. } => TxAction::ReleaseLock,
        TxPhase::Done { .. } => TxAction::Finished,
    }
}

/// The phase after performing the pending action with outcome `ok`.
pub open spec fn tx_step_spec(phase: TxPhase, ok: bool) -> TxPhase {
    match phase {
        TxPhase::Idle => if ok {
            TxPhase::Locked
        } else {
            TxPhase::Done { ok: false }
        },
        TxPhase::Locked => if ok {
            TxPhase::Downloaded
        } else {
            TxPhase::Unlocking { ok: false }
        },
        TxPhase::Downloaded => TxPhase::Worked { work_ok: ok },
        TxPhase::Worked { work_ok } => TxPhase::Unlocking { ok: work_ok && ok },
        TxPhase::Unlocking { ok: so_far } => TxPhase::Done { ok: so_far && ok },
        TxPhase::Done { ok: done_ok } => TxPhase::Done { ok: done_ok },
    }
}

/// What a transaction in `phase` must do next.
pub fn tx_action(phase: &TxPhase) -> (a: TxAction)
    ensures
        a == tx_action_spec(*phase),
{
    match phase {
        TxPhase::Idle => TxAction::AcquireLock,
        TxPhase::Locked => TxAction::Download,
        TxPhase::Downloaded => TxAction::RunWork,
        TxPhase::Worked { .. } => TxAction::Upload,
        TxPhase::Unlocking { .. } => TxAction::ReleaseLock,
        TxPhase::Done { .. } => TxAction::Finished,
    }
}

/// Advances the transaction after its pending action ended with `ok`.
pub fn tx_step(phase: &TxPhase, ok: bool) -> (p: TxPhase)
    ensures
        p == tx_step_spec(*phase, ok),
{
    match phase {
        TxPhase::Idle => if ok {
            TxPhase::Locked
        } else {
            TxPhase::Done { ok: false }
        },
        TxPhase::Locked => if ok {
            TxPhase::Downloaded
        } else {
            TxPhase::Unlocking { ok: false }
        },
        TxPhase::Downloaded => TxPhase::Worked { work_ok: ok },
        TxPhase::Worked { work_ok } => TxPhase::Unlocking { ok: *work_ok && ok },
        TxPhase::Unlocking { ok: so_far } => TxPhase::Done { ok: *so_far && ok },
        TxPhase::Done { ok: done_ok } => TxPhase::Done { ok: *done_ok },
    }
}

/// The phase reached from idle after the given step outcomes.
pub open spec fn tx_run(outcomes: Seq<bool>) -> TxPhase
    decreases outcomes.len(),
{
    if outcomes.len() == 0 {
        TxPhase::Idle
    } else {
        tx_step_spec(tx_run(outcomes.drop_last()), outcomes.last())
    }
}

/// When lock acquisition fails, the transaction is over at once: no
/// download, no work and no upload are ever requested afterwards.
pub proof fn lemma_tx_lock_failure(outcomes: Seq<bool>)
    requires
        outcomes.len() > 0,
        !outcomes[0],
    ensures
        tx_run(outcomes) == (TxPhase::Done { ok: false }),
        tx_action_spec(tx_run(outcomes)) == TxAction::Finished,
    decreases outcomes.len(),
{
    if outcomes.len() == 1 {
        assert(outcomes.drop_last() =~= Seq::<bool>::empty());
    } else {
        lemma_tx_lock_failure(outcomes.drop_last());
    }
}

/// The mirror is published even when the unit of work failed: after the
/// work phase the next action is the upload, whatever the work's outcome.
pub proof fn lemma_tx_upload_after_failed_work(work_ok: bool)
    ensures
        tx_action_spec(TxPhase::Worked { work_ok }) == TxAction::Upload,
{
}

/// The work never runs before a completed download: the only phase whose
/// action is the work is reached exclusively through a successful download.
pub proof fn lemma_tx_work_needs_download(phase: TxPhase, ok: bool)
    ensures
        tx_step_spec(phase, ok) == TxPhase::Downloaded ==> phase == TxPhase::Locked && ok,
{
}

/// The lock is released on every path on which it was acquired: from any
/// phase other than idle or done, the transaction passes the release phase
/// before it finishes.
pub proof fn lemma_tx_release_before_done(phase: TxPhase, ok: bool)
    ensures
        tx_step_spec(phase, ok) is Done ==> phase is Idle || phase is Unlocking || phase is Done,
{
}

} // verus!
