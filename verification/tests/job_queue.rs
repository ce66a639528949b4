use beview::error::AppError;
use beview::job_queue::{
    cancel, claim, claimable, expired, finish, idle_delay_ms, job_kind, reset_on_boot, JobKind, QueueStatus,
    QueuedState,
};

fn job(status: QueueStatus, attempts: i32, heartbeat_age: Option<i64>) -> QueuedState {
    QueuedState { status, attempts, max_attempts: 2, heartbeat_age }
}

#[test]
fn claiming() {
    assert!(claimable(&job(QueueStatus::Pending, 0, None)));
    assert!(claimable(&job(QueueStatus::Running, 1, Some(61))));
    assert!(!claimable(&job(QueueStatus::Running, 1, Some(60))));
    assert!(!claimable(&job(QueueStatus::Running, 1, None)));
    assert!(!claimable(&job(QueueStatus::Done, 1, Some(999))));
    assert!(!claimable(&job(QueueStatus::Cancelled, 0, None)));
    assert_eq!(claim(job(QueueStatus::Pending, 0, None)), job(QueueStatus::Running, 1, Some(0)));
}

#[test]
fn finishing_retries_until_dead() {
    let run1 = claim(job(QueueStatus::Pending, 0, None));
    let back = finish(run1, false);
    assert_eq!(back.status, QueueStatus::Pending);
    let run2 = claim(back);
    assert_eq!(finish(run2, false).status, QueueStatus::Dead);
    assert_eq!(finish(run2, true).status, QueueStatus::Done);
    let (c, stopped) = cancel(run2);
    assert!(stopped);
    assert_eq!(c.status, QueueStatus::Cancelled);
    assert_eq!(finish(c, true).status, QueueStatus::Cancelled);
    assert_eq!(cancel(c), (c, false));
    assert_eq!(reset_on_boot(job(QueueStatus::Running, 1, Some(5))), job(QueueStatus::Pending, 1, None));
    assert_eq!(reset_on_boot(job(QueueStatus::Done, 1, Some(5))), job(QueueStatus::Done, 1, Some(5)));
}

#[test]
fn purging_and_dispatch() {
    assert!(expired(QueueStatus::Done, Some(7 * 86400 + 1)));
    assert!(!expired(QueueStatus::Done, Some(7 * 86400)));
    assert!(expired(QueueStatus::Cancelled, Some(8 * 86400)));
    assert!(!expired(QueueStatus::Dead, Some(8 * 86400)));
    assert!(expired(QueueStatus::Dead, Some(91 * 86400)));
    assert!(!expired(QueueStatus::Pending, Some(1000 * 86400)));
    assert!(!expired(QueueStatus::Done, None));
    assert_eq!(job_kind("batch_analyze"), Ok(JobKind::BatchAnalyze));
    assert_eq!(job_kind("paper_grading"), Err(AppError::BadRequest("未知后台任务类型 paper_grading".into())));
    assert_eq!((idle_delay_ms(true, false), idle_delay_ms(false, false), idle_delay_ms(false, true)), (0, 1000, 5000));
}
