use beview::jobs::{job_view_status, AiEvent, AiJobs, AiStart, BatchJobs, MAX_FINISHED};

#[test]
fn ai_jobs_start_dedupes_running_and_finish_unlocks() {
    let mut jobs = AiJobs::new();
    let j1 = match jobs.start(1, "ref", 42, 0) {
        AiStart::Started(j) => j,
        AiStart::AlreadyRunning(_) => panic!("首次 start 不应去重"),
    };
    match jobs.start(1, "ref", 42, 1) {
        AiStart::Started(_) => panic!("running 中不应起新任务"),
        AiStart::AlreadyRunning(j) => assert_eq!(j.id, j1.id),
    }
    assert!(matches!(jobs.start(1, "analyze", 42, 2), AiStart::Started(_)));
    assert!(matches!(jobs.start(1, "ref", 43, 3), AiStart::Started(_)));
    assert!(matches!(jobs.start(2, "ref", 42, 4), AiStart::Started(_)));
    // the event a started job announces
    let ev = j1.event();
    assert_eq!((ev.uid, ev.kind.as_str(), ev.status.as_str()), (1, "ref", "running"));
    let done = jobs.finish(&j1, true);
    assert_eq!(
        done,
        AiEvent { uid: 1, job_id: j1.id, kind: "ref".into(), target_id: 42, status: "done".into() }
    );
    assert_eq!(jobs.get(j1.id).unwrap().status, "done");
    assert!(matches!(jobs.start(1, "ref", 42, 5), AiStart::Started(j2) if j2.id != j1.id));
    let j2 = jobs.running_for(1, "ref", 42).unwrap();
    let failed = jobs.finish(&j2, false);
    assert_eq!(failed.status, "failed");
    assert_eq!(jobs.get(j2.id).unwrap().status, "failed");
}

#[test]
fn ai_job_ids_are_issued_in_order() {
    let mut jobs = AiJobs::new();
    assert_eq!(jobs.issued(), 0);
    let a = match jobs.start(1, "ref", 1, 100) {
        AiStart::Started(j) => j,
        _ => panic!(),
    };
    assert_eq!(a.id, 1);
    assert_eq!(a.started_at, 100);
    assert_eq!(a.status, "running");
    let b = match jobs.start(1, "ref", 2, 200) {
        AiStart::Started(j) => j,
        _ => panic!(),
    };
    assert_eq!(b.id, 2);
    assert_eq!(jobs.issued(), 2);
    assert!(jobs.get(99).is_none());
    assert_eq!(jobs.get(2).unwrap(), b);
}

#[test]
fn stale_finish_does_not_release_newer_job() {
    let mut jobs = AiJobs::new();
    let old = match jobs.start(3, "overall", 7, 0) {
        AiStart::Started(j) => j,
        _ => panic!(),
    };
    jobs.finish(&old, true);
    let newer = match jobs.start(3, "overall", 7, 1) {
        AiStart::Started(j) => j,
        _ => panic!(),
    };
    // finishing the old job again leaves the newer one running
    jobs.finish(&old, false);
    assert_eq!(jobs.running_for(3, "overall", 7), Some(newer));
}

#[test]
fn finished_jobs_are_capped() {
    let mut jobs = AiJobs::new();
    let mut first = None;
    for t in 0..(MAX_FINISHED as i64 + 3) {
        let j = match jobs.start(1, "ref", t, t) {
            AiStart::Started(j) => j,
            _ => panic!(),
        };
        if first.is_none() {
            first = Some(j.clone());
        }
        jobs.finish(&j, true);
    }
    let first = first.unwrap();
    assert!(jobs.get(first.id).is_none(), "oldest finished job is dropped");
    assert_eq!(jobs.get(jobs.issued()).unwrap().status, "done");
    assert!(jobs.get(4).is_some());
    assert!(jobs.get(3).is_none());
}

#[test]
fn batch_jobs_lifecycle() {
    let mut b = BatchJobs::new();
    let id = b.create(9, 5, 1000);
    assert_eq!(id, 1);
    let j = b.get(id).unwrap();
    assert_eq!((j.uid, j.status.as_str(), j.total, j.done, j.ok, j.failed), (9, "running", 5, 0, 0, 0));
    assert_eq!(j.error, None);
    assert!(!b.is_cancelled(id));
    assert!(b.cancel(id));
    assert!(b.is_cancelled(id));
    assert!(!b.cancel(42));
    assert!(!b.is_cancelled(42));
    assert!(b.get(42).is_none());
    b.update(id, |job| {
        job.done += 1;
        job.ok += 1;
    });
    let j = b.get(id).unwrap();
    assert_eq!((j.done, j.ok), (1, 1));
    let id2 = b.create(9, 1, 2000);
    assert_eq!(id2, 2);
    b.update(77, |job| job.status = "error".into());
    assert_eq!(b.get(id2).unwrap().status, "running");
    assert_eq!(b.issued(), 2);
}

#[test]
fn queue_status_maps_to_public_status() {
    assert_eq!(job_view_status("done"), "done");
    assert_eq!(job_view_status("cancelled"), "cancelled");
    assert_eq!(job_view_status("failed"), "error");
    assert_eq!(job_view_status("dead"), "error");
    assert_eq!(job_view_status("pending"), "running");
    assert_eq!(job_view_status("running"), "running");
}
