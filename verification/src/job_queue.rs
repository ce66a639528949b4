//! The life of a persisted background job: which jobs may be claimed, what a
//! claim, a finish, a cancellation and a restart do to a job, which finished
//! jobs expire, and what the dispatcher does with a claim.
use vstd::prelude::*;
use vstd::string::StringExecFns;

use crate::error::{AppError, AppErrorView};
use crate::text::{owned, str_eq};

verus! {

/// Seconds of heartbeat lease of a running job.
pub const LEASE_SECS: i64 = 60;

/// Seconds after which finished (done or cancelled) jobs are purged.
pub const DONE_TTL_SECS: i64 = 604800;

/// Seconds after which dead jobs are purged.
pub const DEAD_TTL_SECS: i64 = 7776000;

/// Status of a queued job.
#[derive(Debug, Clone, Copy, PartialEq, Eq, Structural)]
pub enum QueueStatus {
    Pending,
    Running,
    Done,
    Dead,
    Cancelled,
}

/// What the queue knows of a job.
#[derive(Debug, Clone, Copy, PartialEq, Eq)]
pub struct QueuedState {
    pub status: QueueStatus,
    /// Claims so far.
    pub attempts: i32,
    pub max_attempts: i32,
    /// Seconds since the last heartbeat (`None` when there is none).
    pub heartbeat_age: Option<i64>,
}

/// A job may be claimed when pending, or when running with a heartbeat older
/// than the lease (its runner died).
pub open spec fn claimable_spec(j: QueuedState) -> bool {
    j.status == QueueStatus::Pending || (j.status == QueueStatus::Running && (j.heartbeat_age matches Some(a)
        && a > LEASE_SECS))
}

/// Whether a job may be claimed.
pub fn claimable(j: &QueuedState) -> (r: bool)
    ensures
        r == claimable_spec(*j),
{
    match j.status {
        QueueStatus::Pending => true,
        QueueStatus::Running => match j.heartbeat_age {
            Some(a) => a > LEASE_SECS,
            None => false,
        },
        _ => false,
    }
}

/// Claiming runs the job: it counts one more attempt and has a fresh heartbeat.
pub fn claim(j: QueuedState) -> (r: QueuedState)
    requires
        claimable_spec(j),
        j.attempts < i32::MAX,
    ensures
        r == (QueuedState {
            status: QueueStatus::Running,
            attempts: (j.attempts + 1) as i32,
            heartbeat_age: Some(0),
            ..j
        }),
{
    QueuedState { status: QueueStatus::Running, attempts: j.attempts + 1, heartbeat_age: Some(0), ..j }
}

/// Finishing: a cancelled job stays cancelled; success is done; a failure
/// goes back to pending for another attempt, or is dead once the attempts
/// reached the maximum.
pub open spec fn finish_spec(j: QueuedState, ok: bool) -> QueueStatus {
    if j.status == QueueStatus::Cancelled {
        QueueStatus::Cancelled
    } else if ok {
        QueueStatus::Done
    } else if j.attempts >= j.max_attempts {
        QueueStatus::Dead
    } else {
        QueueStatus::Pending
    }
}

/// Records the end of a run.
pub fn finish(j: QueuedState, ok: bool) -> (r: QueuedState)
    ensures
        r == (QueuedState { status: finish_spec(j, ok), ..j }),
{
    let status = if j.status == QueueStatus::Cancelled {
        QueueStatus::Cancelled
    } else if ok {
        QueueStatus::Done
    } else if j.attempts >= j.max_attempts {
        QueueStatus::Dead
    } else {
        QueueStatus::Pending
    };
    QueuedState { status, ..j }
}

/// Cancelling stops a pending or running job (and tells whether it did).
pub fn cancel(j: QueuedState) -> (r: (QueuedState, bool))
    ensures
        r.1 <==> (j.status == QueueStatus::Pending || j.status == QueueStatus::Running),
        r.0 == if r.1 {
            QueuedState { status: QueueStatus::Cancelled, ..j }
        } else {
            j
        },
{
    match j.status {
        QueueStatus::Pending | QueueStatus::Running => (QueuedState { status: QueueStatus::Cancelled, ..j }, true),
        _ => (j, false),
    }
}

/// At start-up every running job is put back to pending (its runner died
/// with the previous process), without heartbeat.
pub fn reset_on_boot(j: QueuedState) -> (r: QueuedState)
    ensures
        r == if j.status == QueueStatus::Running {
            QueuedState { status: QueueStatus::Pending, heartbeat_age: None, ..j }
        } else {
            j
        },
{
    if j.status == QueueStatus::Running {
        QueuedState { status: QueueStatus::Pending, heartbeat_age: None, ..j }
    } else {
        j
    }
}

/// Finished jobs are purged after seven days (done, cancelled) or ninety
/// days (dead); pending and running jobs never are.
pub open spec fn expired_spec(status: QueueStatus, finished_age: Option<i64>) -> bool {
    match finished_age {
        Some(a) => ((status == QueueStatus::Done || status == QueueStatus::Cancelled) && a > DONE_TTL_SECS) || (
        status == QueueStatus::Dead && a > DEAD_TTL_SECS),
        None => false,
    }
}

/// Whether a job is purged, given seconds since it finished.
pub fn expired(status: QueueStatus, finished_age: Option<i64>) -> (r: bool)
    ensures
        r == expired_spec(status, finished_age),
{
    match finished_age {
        Some(a) => match status {
            QueueStatus::Done | QueueStatus::Cancelled => a > DONE_TTL_SECS,
            QueueStatus::Dead => a > DEAD_TTL_SECS,
            _ => false,
        },
        None => false,
    }
}

/// A cancelled job stays cancelled whatever happens to it, and is never
/// claimed again; done and dead jobs are never claimed either.
pub proof fn lemma_cancelled_is_final(j: QueuedState, ok: bool)
    requires
        j.status == QueueStatus::Cancelled,
    ensures
        finish_spec(j, ok) == QueueStatus::Cancelled,
        !claimable_spec(j),
{
}

/// Only pending and stale running jobs are claimed: finished jobs never run again.
pub proof fn lemma_finished_not_claimable(j: QueuedState)
    requires
        j.status == QueueStatus::Done || j.status == QueueStatus::Dead || j.status == QueueStatus::Cancelled,
    ensures
        !claimable_spec(j),
{
}

/// A failed run goes back to the queue exactly while attempts remain.
pub proof fn lemma_retry_until_max(j: QueuedState)
    requires
        j.status == QueueStatus::Running,
    ensures
        finish_spec(j, false) == QueueStatus::Pending <==> j.attempts < j.max_attempts,
        finish_spec(j, false) == QueueStatus::Dead <==> j.attempts >= j.max_attempts,
{
}

/// The kinds of job the dispatcher runs.
#[derive(Debug, Clone, Copy, PartialEq, Eq)]
pub enum JobKind {
    BatchAnalyze,
}

/// The runner of a claimed job's kind; any other kind fails the run.
pub fn job_kind(kind: &str) -> (r: Result<JobKind, AppError>)
    ensures
        r is Ok <==> kind@ == "batch_analyze"@,
        r matches Err(e) ==> e@ == AppErrorView::BadRequest("未知后台任务类型 "@ + kind@),
{
    if str_eq(kind, "batch_analyze") {
        Ok(JobKind::BatchAnalyze)
    } else {
        let mut m = owned("未知后台任务类型 ");
        m.append(kind);
        Err(AppError::BadRequest(m))
    }
}

/// Milliseconds the dispatcher waits before claiming again: none after a
/// claim, a second when the queue was empty, five after a failed claim.
pub fn idle_delay_ms(claimed: bool, claim_failed: bool) -> (r: u64)
    ensures
        r == if claim_failed {
            5000u64
        } else if claimed {
            0u64
        } else {
            1000u64
        },
{
    if claim_failed {
        5000
    } else if claimed {
        0
    } else {
        1000
    }
}

} // verus!
