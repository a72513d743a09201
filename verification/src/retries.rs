//! Retry decisions for table maintenance that meets lock wait timeouts:
//! what to do after each attempt, given what the database answered.
use vstd::prelude::*;

verus! {

/// The delay in seconds before truncating a table again: after a lock
/// timeout on one of the first two of three attempts, twice the attempt
/// number; otherwise no retry.
pub fn truncate_retry_delay(attempt: u64, lock_timeout: bool) -> (r: Option<u64>)
    requires attempt <= 3,
    ensures r == (if lock_timeout && attempt < 3 { Some((2 * attempt) as u64) } else { None::<u64> }),
{
    if lock_timeout && attempt < 3 { Some(2 * attempt) } else { None }
}

/// The most lock timeouts in a row that a batched delete waits out.
pub open spec fn max_lock_timeouts() -> u64 {
    20
}

/// How far a batched delete has come: rows deleted so far, and lock
/// timeouts met since the last batch that went through.
#[derive(Clone, Copy, Debug, PartialEq, Eq)]
pub struct DeleteProgress {
    pub total_deleted: u64,
    pub lock_timeouts: u64,
}

/// What the database answered to one delete batch.
#[derive(Clone, Copy, Debug, PartialEq, Eq)]
pub enum BatchOutcome {
    /// The batch went through and deleted this many rows.
    Deleted(u64),
    /// The batch met a lock wait timeout.
    LockTimeout,
    /// The batch failed otherwise.
    Failed,
}

/// What a batched delete does next.
#[derive(Clone, Copy, Debug, PartialEq, Eq)]
pub enum BatchAction {
    /// Wait this many seconds, then try the same batch again.
    RetryAfterSecs(u64),
    /// Pause briefly, then delete the next batch.
    NextBatch,
    /// All rows are deleted.
    Done,
    /// Give up and report the error.
    Fail,
}

/// The next progress and action of a batched delete of `batch_size` rows at
/// a time: a batch that went through resets the timeout count, adds its
/// rows and ends the delete when it was short; a lock timeout is waited out
/// (twice as many seconds as timeouts in a row) up to twenty times; any
/// other failure ends it.
pub open spec fn delete_step_spec(p: DeleteProgress, outcome: BatchOutcome, batch_size: u64) -> (DeleteProgress, BatchAction) {
    match outcome {
        BatchOutcome::Deleted(d) => (
            DeleteProgress { total_deleted: (p.total_deleted + d) as u64, lock_timeouts: 0 },
            if d == 0 || d < batch_size { BatchAction::Done } else { BatchAction::NextBatch },
        ),
        BatchOutcome::LockTimeout => if p.lock_timeouts < max_lock_timeouts() {
            (
                DeleteProgress { total_deleted: p.total_deleted, lock_timeouts: (p.lock_timeouts + 1) as u64 },
                BatchAction::RetryAfterSecs(((p.lock_timeouts + 1) * 2) as u64),
            )
        } else {
            (p, BatchAction::Fail)
        },
        BatchOutcome::Failed => (p, BatchAction::Fail),
    }
}

/// One step of a batched delete.
pub fn delete_step(p: DeleteProgress, outcome: BatchOutcome, batch_size: u64) -> (r: (DeleteProgress, BatchAction))
    requires
        p.lock_timeouts <= max_lock_timeouts(),
        outcome matches BatchOutcome::Deleted(d) ==> p.total_deleted + d <= u64::MAX,
    ensures
        r == delete_step_spec(p, outcome, batch_size),
        r.0.lock_timeouts <= max_lock_timeouts(),
        r.0.total_deleted >= p.total_deleted,
{
    match outcome {
        BatchOutcome::Deleted(d) => {
            let next = DeleteProgress { total_deleted: p.total_deleted + d, lock_timeouts: 0 };
            let action = if d == 0 || d < batch_size { BatchAction::Done } else { BatchAction::NextBatch };
            (next, action)
        }
        BatchOutcome::LockTimeout => {
            if p.lock_timeouts < 20 {
                let n = p.lock_timeouts + 1;
                (DeleteProgress { total_deleted: p.total_deleted, lock_timeouts: n }, BatchAction::RetryAfterSecs(n * 2))
            } else {
                (p, BatchAction::Fail)
            }
        }
        BatchOutcome::Failed => (p, BatchAction::Fail),
    }
}

} // verus!
