//! In-process job registries.
//!
//! [`AiJobs`]: AI tasks keyed by `(uid, kind, target_id)`; a start while the same
//! key is running is answered with the running job (idempotent), finishing
//! releases the key and keeps the latest [`MAX_FINISHED`] finished jobs for
//! polling.  [`BatchJobs`]: batch analysis jobs with progress and a cancel flag.
//! Sharing between threads and broadcasting the returned events is left to the
//! caller.
use vstd::prelude::*;

use crate::json::{member, u64_of, Json, JsonView};
use crate::text::{chars_of, owned, str_eq};

verus! {

/// Number of finished AI jobs kept for polling.
pub const MAX_FINISHED: usize = 512;

/// Status change of an AI job, to be broadcast to subscribers.
#[derive(Debug, Clone, PartialEq)]
pub struct AiEvent {
    pub uid: i64,
    pub job_id: u64,
    pub kind: String,
    pub target_id: i64,
    /// running | done | failed
    pub status: String,
}

/// An AI job.
#[derive(Debug, Clone, PartialEq)]
pub struct AiJob {
    pub id: u64,
    pub uid: i64,
    pub kind: String,
    pub target_id: i64,
    /// running | done | failed
    pub status: String,
    /// Start time (milliseconds since the Unix epoch, supplied by the caller).
    pub started_at: i64,
}

/// Model of an AI job.
pub struct AiJobV {
    pub id: u64,
    pub uid: i64,
    pub kind: Seq<char>,
    pub target_id: i64,
    pub status: Seq<char>,
    pub started_at: i64,
}

impl View for AiJob {
    type V = AiJobV;

    open spec fn view(&self) -> AiJobV {
        AiJobV {
            id: self.id,
            uid: self.uid,
            kind: self.kind@,
            target_id: self.target_id,
            status: self.status@,
            started_at: self.started_at,
        }
    }
}

/// Model of an AI job event.
pub struct AiEventV {
    pub uid: i64,
    pub job_id: u64,
    pub kind: Seq<char>,
    pub target_id: i64,
    pub status: Seq<char>,
}

impl View for AiEvent {
    type V = AiEventV;

    open spec fn view(&self) -> AiEventV {
        AiEventV {
            uid: self.uid,
            job_id: self.job_id,
            kind: self.kind@,
            target_id: self.target_id,
            status: self.status@,
        }
    }
}

/// The event that announces a job in its current status.
pub open spec fn event_of(j: AiJobV) -> AiEventV {
    AiEventV { uid: j.uid, job_id: j.id, kind: j.kind, target_id: j.target_id, status: j.status }
}

/// Answer of an idempotent start.
#[derive(Debug)]
pub enum AiStart {
    Started(AiJob),
    AlreadyRunning(AiJob),
}

pub enum AiStartV {
    Started(AiJobV),
    AlreadyRunning(AiJobV),
}

impl View for AiStart {
    type V = AiStartV;

    open spec fn view(&self) -> AiStartV {
        match self {
            AiStart::Started(j) => AiStartV::Started(j@),
            AiStart::AlreadyRunning(j) => AiStartV::AlreadyRunning(j@),
        }
    }
}

/// Registry of AI jobs.
pub struct AiJobs {
    next_id: u64,
    running: Vec<AiJob>,
    finished: Vec<AiJob>,
}

/// Model of the registry.
pub struct AiJobsV {
    pub next_id: u64,
    pub running: Seq<AiJobV>,
    pub finished: Seq<AiJobV>,
}

impl View for AiJobs {
    type V = AiJobsV;

    closed spec fn view(&self) -> AiJobsV {
        AiJobsV {
            next_id: self.next_id,
            running: self.running@.map_values(|j: AiJob| j@),
            finished: self.finished@.map_values(|j: AiJob| j@),
        }
    }
}

/// The identity of a job for deduplication.
pub open spec fn same_key(j: AiJobV, uid: i64, kind: Seq<char>, target_id: i64) -> bool {
    j.uid == uid && j.kind == kind && j.target_id == target_id
}

/// First running job with the key, from position `i`.
pub open spec fn find_key(rs: Seq<AiJobV>, uid: i64, kind: Seq<char>, target_id: i64, i: int) -> Option<int>
    decreases rs.len() - i,
{
    if i < 0 || i >= rs.len() {
        None
    } else if same_key(rs[i], uid, kind, target_id) {
        Some(i)
    } else {
        find_key(rs, uid, kind, target_id, i + 1)
    }
}

/// First job with the id, from position `i`.
pub open spec fn find_id(js: Seq<AiJobV>, id: u64, i: int) -> Option<int>
    decreases js.len() - i,
{
    if i < 0 || i >= js.len() {
        None
    } else if js[i].id == id {
        Some(i)
    } else {
        find_id(js, id, i + 1)
    }
}

/// Well-formed registry: keys of running jobs are distinct, their ids were
/// issued, they are running, and at most [`MAX_FINISHED`] finished jobs are kept.
pub open spec fn jobs_wf(s: AiJobsV) -> bool {
    &&& forall|i: int, k: int|
        #![trigger s.running[i], s.running[k]]
        0 <= i < k < s.running.len() ==> !same_key(
            s.running[i],
            s.running[k].uid,
            s.running[k].kind,
            s.running[k].target_id,
        )
    &&& forall|i: int| 0 <= i < s.running.len() ==> (#[trigger] s.running[i]).id <= s.next_id
    &&& forall|i: int| 0 <= i < s.running.len() ==> (#[trigger] s.running[i]).status == "running"@
    &&& s.finished.len() <= MAX_FINISHED
}

/// The registry after a start, and the answer.
pub open spec fn start_spec(s: AiJobsV, uid: i64, kind: Seq<char>, target_id: i64, at: i64) -> (
    AiJobsV,
    AiStartV,
) {
    match find_key(s.running, uid, kind, target_id, 0) {
        Some(i) => (s, AiStartV::AlreadyRunning(s.running[i])),
        None => {
            let j = AiJobV {
                id: (s.next_id + 1) as u64,
                uid,
                kind,
                target_id,
                status: "running"@,
                started_at: at,
            };
            (AiJobsV { next_id: j.id, running: s.running.push(j), finished: s.finished }, AiStartV::Started(j))
        },
    }
}

/// Status text of a finished job.
pub open spec fn final_status(ok: bool) -> Seq<char> {
    if ok {
        "done"@
    } else {
        "failed"@
    }
}

/// The registry after finishing `job`: its key is released when it still
/// belongs to this job, and the job is recorded as finished (oldest dropped
/// beyond [`MAX_FINISHED`]).
pub open spec fn finish_spec(s: AiJobsV, job: AiJobV, ok: bool) -> AiJobsV {
    let running = match find_key(s.running, job.uid, job.kind, job.target_id, 0) {
        Some(i) => if s.running[i].id == job.id {
            s.running.remove(i)
        } else {
            s.running
        },
        None => s.running,
    };
    let f = s.finished.push(AiJobV { status: final_status(ok), ..job });
    AiJobsV {
        next_id: s.next_id,
        running,
        finished: if f.len() > MAX_FINISHED {
            f.skip(f.len() - MAX_FINISHED)
        } else {
            f
        },
    }
}

/// Lookup by id: a running job, else the oldest recorded finished one.
pub open spec fn get_spec(s: AiJobsV, id: u64) -> Option<AiJobV> {
    match find_id(s.running, id, 0) {
        Some(i) => Some(s.running[i]),
        None => match find_id(s.finished, id, 0) {
            Some(i) => Some(s.finished[i]),
            None => None,
        },
    }
}

/// The running job of a key.
pub open spec fn running_for_spec(s: AiJobsV, uid: i64, kind: Seq<char>, target_id: i64) -> Option<AiJobV> {
    match find_key(s.running, uid, kind, target_id, 0) {
        Some(i) => Some(s.running[i]),
        None => None,
    }
}

/// A found key position is in range and holds the key; before it there is none.
pub proof fn lemma_find_key(rs: Seq<AiJobV>, uid: i64, kind: Seq<char>, target_id: i64, i: int)
    requires
        0 <= i,
    ensures
        find_key(rs, uid, kind, target_id, i) matches Some(p) ==> i <= p < rs.len() && same_key(
            rs[p],
            uid,
            kind,
            target_id,
        ),
        find_key(rs, uid, kind, target_id, i) is None ==> forall|k: int|
            i <= k < rs.len() ==> !same_key(#[trigger] rs[k], uid, kind, target_id),
    decreases rs.len() - i,
{
    if i < rs.len() && !same_key(rs[i], uid, kind, target_id) {
        lemma_find_key(rs, uid, kind, target_id, i + 1);
    }
}

/// A found id position is in range and holds the id.
pub proof fn lemma_find_id(js: Seq<AiJobV>, id: u64, i: int)
    requires
        0 <= i,
    ensures
        find_id(js, id, i) matches Some(p) ==> i <= p < js.len() && js[p].id == id,
    decreases js.len() - i,
{
    if i < js.len() && js[i].id != id {
        lemma_find_id(js, id, i + 1);
    }
}

/// A copy of a job with the same model.
pub fn copy_job(j: &AiJob) -> (r: AiJob)
    ensures
        r@ == j@,
{
    AiJob {
        id: j.id,
        uid: j.uid,
        kind: j.kind.clone(),
        target_id: j.target_id,
        status: j.status.clone(),
        started_at: j.started_at,
    }
}

impl AiJob {
    /// The event announcing this job in its current status.
    pub fn event(&self) -> (e: AiEvent)
        ensures
            e@ == event_of(self@),
    {
        AiEvent {
            uid: self.uid,
            job_id: self.id,
            kind: self.kind.clone(),
            target_id: self.target_id,
            status: self.status.clone(),
        }
    }
}

impl AiJobs {
    /// The registry invariant.
    pub open spec fn wf(&self) -> bool {
        jobs_wf(self@)
    }

    /// An empty registry.
    pub fn new() -> (r: Self)
        ensures
            r.wf(),
            r@.next_id == 0,
            r@.running.len() == 0,
            r@.finished.len() == 0,
    {
        let r = AiJobs { next_id: 0, running: Vec::new(), finished: Vec::new() };
        assert(r@.running =~= Seq::<AiJobV>::empty());
        assert(r@.finished =~= Seq::<AiJobV>::empty());
        r
    }

    /// Number of ids issued so far.
    pub fn issued(&self) -> (n: u64)
        ensures
            n == self@.next_id,
    {
        self.next_id
    }

    fn position_of_key(&self, uid: i64, kind: &str, target_id: i64) -> (r: Option<usize>)
        ensures
            r matches Some(i) ==> find_key(self@.running, uid, kind@, target_id, 0) == Some(i as int),
            r is None ==> find_key(self@.running, uid, kind@, target_id, 0) is None,
    {
        let ghost rv = self@.running;
        let mut i: usize = 0;
        while i < self.running.len()
            invariant
                i <= self.running@.len(),
                rv == self@.running,
                rv == self.running@.map_values(|j: AiJob| j@),
                find_key(rv, uid, kind@, target_id, 0) == find_key(rv, uid, kind@, target_id, i as int),
            decreases self.running@.len() - i,
        {
            let j = &self.running[i];
            assert(rv[i as int] == j@);
            if j.uid == uid && str_eq(j.kind.as_str(), kind) && j.target_id == target_id {
                return Some(i);
            }
            i += 1;
        }
        None
    }

    /// Idempotent start: the running job of the same key, or a new running job
    /// (broadcast its [`AiJob::event`]).
    pub fn start(&mut self, uid: i64, kind: &str, target_id: i64, started_at: i64) -> (r: AiStart)
        requires
            old(self).wf(),
            old(self)@.next_id < u64::MAX,
        ensures
            final(self).wf(),
            start_spec(old(self)@, uid, kind@, target_id, started_at) == (final(self)@, r@),
    {
        match self.position_of_key(uid, kind, target_id) {
            Some(i) => {
                proof {
                    lemma_find_key(self@.running, uid, kind@, target_id, 0);
                }
                let j = copy_job(&self.running[i]);
                assert(self@.running[i as int] == j@);
                AiStart::AlreadyRunning(j)
            },
            None => {
                proof {
                    lemma_find_key(self@.running, uid, kind@, target_id, 0);
                }
                let ghost old_running = self@.running;
                let id = self.next_id + 1;
                self.next_id = id;
                let job = AiJob {
                    id,
                    uid,
                    kind: owned(kind),
                    target_id,
                    status: owned("running"),
                    started_at,
                };
                let answer = copy_job(&job);
                self.running.push(job);
                proof {
                    assert(self@.running =~= old_running.push(answer@));
                }
                AiStart::Started(answer)
            },
        }
    }

    /// Finishes a job: releases its key (if it still holds it), records it as
    /// done or failed, and returns the event to broadcast.
    pub fn finish(&mut self, job: &AiJob, ok: bool) -> (e: AiEvent)
        requires
            old(self).wf(),
        ensures
            final(self).wf(),
            final(self)@ == finish_spec(old(self)@, job@, ok),
            e@ == (AiEventV {
                uid: job.uid,
                job_id: job.id,
                kind: job.kind@,
                target_id: job.target_id,
                status: final_status(ok),
            }),
    {
        let ghost s0 = self@;
        proof {
            lemma_find_key(s0.running, job.uid, job.kind@, job.target_id, 0);
        }
        if let Some(i) = self.position_of_key(job.uid, job.kind.as_str(), job.target_id) {
            if self.running[i].id == job.id {
                let ghost before = self@.running;
                self.running.remove(i);
                proof {
                    assert(self@.running =~= before.remove(i as int));
                    assert forall|a: int, b: int|
                        #![trigger self@.running[a], self@.running[b]]
                        0 <= a < b < self@.running.len() implies !same_key(
                        self@.running[a],
                        self@.running[b].uid,
                        self@.running[b].kind,
                        self@.running[b].target_id,
                    ) by {
                        let a0 = if a < i { a } else { a + 1 };
                        let b0 = if b < i { b } else { b + 1 };
                        assert(self@.running[a] == before[a0]);
                        assert(self@.running[b] == before[b0]);
                    }
                    assert forall|a: int| 0 <= a < self@.running.len() implies (#[trigger] self@.running[a]).id
                        <= self@.next_id && self@.running[a].status == "running"@ by {
                        let a0 = if a < i { a } else { a + 1 };
                        assert(self@.running[a] == before[a0]);
                    }
                }
            }
        }
        let status = if ok {
            owned("done")
        } else {
            owned("failed")
        };
        let rec = AiJob {
            id: job.id,
            uid: job.uid,
            kind: job.kind.clone(),
            target_id: job.target_id,
            status: status.clone(),
            started_at: job.started_at,
        };
        let ghost f0 = self@.finished;
        self.finished.push(rec);
        proof {
            assert(self@.finished =~= f0.push(AiJobV { status: final_status(ok), ..job@ }));
        }
        if self.finished.len() > MAX_FINISHED {
            let ghost f1 = self@.finished;
            self.finished.remove(0);
            proof {
                assert(self@.finished =~= f1.skip(f1.len() - MAX_FINISHED));
            }
        }
        AiEvent { uid: job.uid, job_id: job.id, kind: job.kind.clone(), target_id: job.target_id, status }
    }

    /// A running or recently finished job by id.
    pub fn get(&self, job_id: u64) -> (r: Option<AiJob>)
        ensures
            get_spec(self@, job_id) == match r {
                Some(j) => Some(j@),
                None => None,
            },
    {
        let ghost rv = self@.running;
        let mut i: usize = 0;
        while i < self.running.len()
            invariant
                i <= self.running@.len(),
                rv == self.running@.map_values(|j: AiJob| j@),
                rv == self@.running,
                find_id(rv, job_id, 0) == find_id(rv, job_id, i as int),
            decreases self.running@.len() - i,
        {
            assert(rv[i as int] == self.running@[i as int]@);
            if self.running[i].id == job_id {
                return Some(copy_job(&self.running[i]));
            }
            i += 1;
        }
        assert(find_id(rv, job_id, i as int) is None);
        let ghost fv = self@.finished;
        let mut k: usize = 0;
        while k < self.finished.len()
            invariant
                k <= self.finished@.len(),
                fv == self.finished@.map_values(|j: AiJob| j@),
                fv == self@.finished,
                rv == self@.running,
                find_id(rv, job_id, 0) is None,
                find_id(fv, job_id, 0) == find_id(fv, job_id, k as int),
            decreases self.finished@.len() - k,
        {
            assert(fv[k as int] == self.finished@[k as int]@);
            if self.finished[k].id == job_id {
                assert(find_id(fv, job_id, k as int) == Some(k as int));
                let r = copy_job(&self.finished[k]);
                assert(r@ == fv[k as int]);
                return Some(r);
            }
            k += 1;
        }
        None
    }

    /// The running job of a key.
    pub fn running_for(&self, uid: i64, kind: &str, target_id: i64) -> (r: Option<AiJob>)
        ensures
            running_for_spec(self@, uid, kind@, target_id) == match r {
                Some(j) => Some(j@),
                None => None,
            },
    {
        match self.position_of_key(uid, kind, target_id) {
            Some(i) => {
                proof {
                    lemma_find_key(self@.running, uid, kind@, target_id, 0);
                }
                let j = copy_job(&self.running[i]);
                assert(self@.running[i as int] == j@);
                Some(j)
            },
            None => None,
        }
    }
}

/// The first position holding a key is what `find_key` returns.
pub proof fn lemma_find_key_first(rs: Seq<AiJobV>, uid: i64, kind: Seq<char>, target_id: i64, i: int, p: int)
    requires
        0 <= i <= p < rs.len(),
        same_key(rs[p], uid, kind, target_id),
        forall|q: int| i <= q < p ==> !same_key(#[trigger] rs[q], uid, kind, target_id),
    ensures
        find_key(rs, uid, kind, target_id, i) == Some(p),
    decreases p - i,
{
    if i < p {
        lemma_find_key_first(rs, uid, kind, target_id, i + 1, p);
    }
}

/// No position holds the key: `find_key` finds nothing.
pub proof fn lemma_find_key_none(rs: Seq<AiJobV>, uid: i64, kind: Seq<char>, target_id: i64, i: int)
    requires
        0 <= i,
        forall|q: int| i <= q < rs.len() ==> !same_key(#[trigger] rs[q], uid, kind, target_id),
    ensures
        find_key(rs, uid, kind, target_id, i) is None,
    decreases rs.len() - i,
{
    if i < rs.len() {
        lemma_find_key_none(rs, uid, kind, target_id, i + 1);
    }
}

/// The first position holding an id is what `find_id` returns.
pub proof fn lemma_find_id_first(js: Seq<AiJobV>, id: u64, i: int, p: int)
    requires
        0 <= i <= p < js.len(),
        js[p].id == id,
        forall|q: int| i <= q < p ==> (#[trigger] js[q]).id != id,
    ensures
        find_id(js, id, i) == Some(p),
    decreases p - i,
{
    if i < p {
        lemma_find_id_first(js, id, i + 1, p);
    }
}

/// No position holds the id: `find_id` finds nothing.
pub proof fn lemma_find_id_none(js: Seq<AiJobV>, id: u64, i: int)
    requires
        0 <= i,
        forall|q: int| i <= q < js.len() ==> (#[trigger] js[q]).id != id,
    ensures
        find_id(js, id, i) is None,
    decreases js.len() - i,
{
    if i < js.len() {
        lemma_find_id_none(js, id, i + 1);
    }
}

/// `find_id` finds nothing exactly when no position holds the id.
pub proof fn lemma_find_id_absent(js: Seq<AiJobV>, id: u64)
    requires
        find_id(js, id, 0) is None,
    ensures
        forall|q: int| 0 <= q < js.len() ==> (#[trigger] js[q]).id != id,
{
    assert forall|q: int| 0 <= q < js.len() implies (#[trigger] js[q]).id != id by {
        if js[q].id == id {
            lemma_find_id_some_below(js, id, 0, q);
        }
    }
}

proof fn lemma_find_id_some_below(js: Seq<AiJobV>, id: u64, i: int, q: int)
    requires
        0 <= i <= q < js.len(),
        js[q].id == id,
    ensures
        find_id(js, id, i) is Some,
    decreases q - i,
{
    if i < q && js[i].id != id {
        lemma_find_id_some_below(js, id, i + 1, q);
    }
}

/// Idempotent start: starting a key that is not running gives a new running
/// job; starting the same key again answers with that job and changes nothing.
pub proof fn lemma_start_dedupes(s: AiJobsV, uid: i64, kind: Seq<char>, target_id: i64, at1: i64, at2: i64)
    requires
        jobs_wf(s),
        s.next_id < u64::MAX,
        running_for_spec(s, uid, kind, target_id) is None,
    ensures
        ({
            let (s1, a1) = start_spec(s, uid, kind, target_id, at1);
            let (s2, a2) = start_spec(s1, uid, kind, target_id, at2);
            &&& a1 is Started
            &&& a1->Started_0.status == "running"@
            &&& a1->Started_0.id == s.next_id + 1
            &&& s2 == s1
            &&& a2 == AiStartV::AlreadyRunning(a1->Started_0)
        }),
{
    lemma_find_key(s.running, uid, kind, target_id, 0);
    let (s1, a1) = start_spec(s, uid, kind, target_id, at1);
    let j = a1->Started_0;
    assert forall|q: int| 0 <= q < s.running.len() implies !same_key(
        #[trigger] s1.running[q],
        uid,
        kind,
        target_id,
    ) by {
        assert(s1.running[q] == s.running[q]);
    }
    lemma_find_key_first(s1.running, uid, kind, target_id, 0, s.running.len() as int);
}

/// Finishing releases the key: after starting a key and finishing that job,
/// the key has no running job, the job is found by id with its final status,
/// and a new start of the key gets a new id.  (Stated for registries that hold
/// no finished record carrying the next id: a caller can finish a job record it
/// made up itself.)
pub proof fn lemma_finish_releases(
    s: AiJobsV,
    uid: i64,
    kind: Seq<char>,
    target_id: i64,
    at: i64,
    ok: bool,
    at2: i64,
)
    requires
        jobs_wf(s),
        s.next_id < u64::MAX - 1,
        running_for_spec(s, uid, kind, target_id) is None,
        find_id(s.finished, (s.next_id + 1) as u64, 0) is None,
    ensures
        ({
            let (s1, a1) = start_spec(s, uid, kind, target_id, at);
            let j = a1->Started_0;
            let s2 = finish_spec(s1, j, ok);
            &&& jobs_wf(s2)
            &&& running_for_spec(s2, uid, kind, target_id) is None
            &&& get_spec(s2, j.id) == Some(AiJobV { status: final_status(ok), ..j })
            &&& start_spec(s2, uid, kind, target_id, at2).1 is Started
            &&& start_spec(s2, uid, kind, target_id, at2).1->Started_0.id != j.id
        }),
{
    lemma_find_key(s.running, uid, kind, target_id, 0);
    let (s1, a1) = start_spec(s, uid, kind, target_id, at);
    let j = a1->Started_0;
    let n = s.running.len() as int;
    assert forall|q: int| 0 <= q < n implies !same_key(#[trigger] s1.running[q], uid, kind, target_id) by {
        assert(s1.running[q] == s.running[q]);
    }
    lemma_find_key_first(s1.running, uid, kind, target_id, 0, n);
    let s2 = finish_spec(s1, j, ok);
    assert(s1.running.remove(n) =~= s.running);
    assert(s2.running == s.running);
    // no running job carries the new id
    assert forall|q: int| 0 <= q < s.running.len() implies (#[trigger] s.running[q]).id != j.id by {}
    lemma_find_id_none(s.running, j.id, 0);
    // the finished record is the only one with the new id
    lemma_find_id_absent(s.finished, j.id);
    let jf = AiJobV { status: final_status(ok), ..j };
    let f = s.finished.push(jf);
    let fl = if f.len() > MAX_FINISHED {
        f.skip(f.len() - MAX_FINISHED)
    } else {
        f
    };
    assert(s2.finished == fl);
    assert(fl.len() >= 1 && fl.last() == jf);
    assert forall|q: int| 0 <= q < fl.len() - 1 implies (#[trigger] fl[q]).id != j.id by {
        if f.len() > MAX_FINISHED {
            assert(fl[q] == f[q + f.len() - MAX_FINISHED]);
            assert(f[q + f.len() - MAX_FINISHED] == s.finished[q + f.len() - MAX_FINISHED]);
        } else {
            assert(fl[q] == s.finished[q]);
        }
    }
    lemma_find_id_first(fl, j.id, 0, fl.len() - 1);
    lemma_find_key_none(s.running, uid, kind, target_id, 0);
    assert(jobs_wf(s2));
}

/// A batch analysis job and its progress.
#[derive(Debug, Clone, PartialEq)]
pub struct BatchJob {
    pub id: u64,
    /// Owner: reads and cancels must check it.
    pub uid: i64,
    /// running | done | cancelled | error
    pub status: String,
    pub total: usize,
    pub done: usize,
    pub ok: usize,
    pub failed: usize,
    pub error: Option<String>,
    /// Start time (milliseconds since the Unix epoch, supplied by the caller).
    pub started_at: i64,
}

/// Model of a batch job.
pub struct BatchJobV {
    pub id: u64,
    pub uid: i64,
    pub status: Seq<char>,
    pub total: usize,
    pub done: usize,
    pub ok: usize,
    pub failed: usize,
    pub error: Option<Seq<char>>,
    pub started_at: i64,
}

impl View for BatchJob {
    type V = BatchJobV;

    open spec fn view(&self) -> BatchJobV {
        BatchJobV {
            id: self.id,
            uid: self.uid,
            status: self.status@,
            total: self.total,
            done: self.done,
            ok: self.ok,
            failed: self.failed,
            error: match &self.error {
                Some(e) => Some(e@),
                None => None,
            },
            started_at: self.started_at,
        }
    }
}

/// A copy of a batch job with the same model.
pub fn copy_batch_job(j: &BatchJob) -> (r: BatchJob)
    ensures
        r@ == j@,
{
    BatchJob {
        id: j.id,
        uid: j.uid,
        status: j.status.clone(),
        total: j.total,
        done: j.done,
        ok: j.ok,
        failed: j.failed,
        error: match &j.error {
            Some(e) => Some(e.clone()),
            None => None,
        },
        started_at: j.started_at,
    }
}

/// Registry of batch jobs: ids are issued in order; each job is stored under
/// its id together with a cancel flag.
pub struct BatchJobs {
    next_id: u64,
    keys: Vec<u64>,
    jobs: Vec<BatchJob>,
    cancelled: Vec<bool>,
}

/// Model of the batch registry: the issued count, the keys and, per key, the
/// job and its cancel flag.
pub struct BatchJobsV {
    pub next_id: u64,
    pub keys: Seq<u64>,
    pub jobs: Seq<BatchJobV>,
    pub cancelled: Seq<bool>,
}

impl View for BatchJobs {
    type V = BatchJobsV;

    closed spec fn view(&self) -> BatchJobsV {
        BatchJobsV {
            next_id: self.next_id,
            keys: self.keys@,
            jobs: self.jobs@.map_values(|j: BatchJob| j@),
            cancelled: self.cancelled@,
        }
    }
}

/// Well-formed batch registry: one job and one flag per key, and the keys are
/// `1..=next_id` in order.
pub open spec fn batch_wf(s: BatchJobsV) -> bool {
    &&& s.cancelled.len() == s.keys.len()
    &&& s.jobs.len() == s.keys.len()
    &&& s.keys.len() == s.next_id
    &&& forall|i: int| 0 <= i < s.keys.len() ==> #[trigger] s.keys[i] == i + 1
}

/// Position of a key (keys are `1..=next_id`).
pub open spec fn batch_pos(s: BatchJobsV, id: u64) -> Option<int> {
    if 1 <= id <= s.keys.len() {
        Some(id - 1)
    } else {
        None
    }
}

/// The job stored under an id.
pub open spec fn batch_get_spec(s: BatchJobsV, id: u64) -> Option<BatchJobV> {
    match batch_pos(s, id) {
        Some(i) => Some(s.jobs[i]),
        None => None,
    }
}

/// Whether the job under an id was cancelled (unknown ids are not).
pub open spec fn batch_cancelled_spec(s: BatchJobsV, id: u64) -> bool {
    match batch_pos(s, id) {
        Some(i) => s.cancelled[i],
        None => false,
    }
}

impl BatchJobs {
    /// The registry invariant.
    pub open spec fn wf(&self) -> bool {
        batch_wf(self@)
    }

    /// An empty registry.
    pub fn new() -> (r: Self)
        ensures
            r.wf(),
            r@.next_id == 0,
    {
        let r = BatchJobs { next_id: 0, keys: Vec::new(), jobs: Vec::new(), cancelled: Vec::new() };
        assert(r@.jobs =~= Seq::<BatchJobV>::empty());
        r
    }

    /// Number of ids issued so far.
    pub fn issued(&self) -> (n: u64)
        ensures
            n == self@.next_id,
    {
        self.next_id
    }

    fn position(&self, id: u64) -> (r: Option<usize>)
        requires
            self.wf(),
        ensures
            r matches Some(i) ==> batch_pos(self@, id) == Some(i as int),
            r is None ==> batch_pos(self@, id) is None,
    {
        if 1 <= id && id <= self.next_id {
            let n = self.keys.len();
            assert(id - 1 < n);
            let i = (id - 1) as usize;
            assert(i == id - 1);
            Some(i)
        } else {
            None
        }
    }

    /// Registers a running job with no progress; returns its id.
    pub fn create(&mut self, uid: i64, total: usize, started_at: i64) -> (id: u64)
        requires
            old(self).wf(),
            old(self)@.next_id < u64::MAX,
            old(self)@.next_id < usize::MAX,
        ensures
            final(self).wf(),
            id == old(self)@.next_id + 1,
            final(self)@.next_id == id,
            final(self)@.jobs == old(self)@.jobs.push(
                BatchJobV {
                    id,
                    uid,
                    status: "running"@,
                    total,
                    done: 0,
                    ok: 0,
                    failed: 0,
                    error: None,
                    started_at,
                },
            ),
            final(self)@.cancelled == old(self)@.cancelled.push(false),
    {
        let ghost j0 = self@.jobs;
        let ghost k0 = self@.keys;
        let id = self.next_id + 1;
        self.next_id = id;
        let job = BatchJob {
            id,
            uid,
            status: owned("running"),
            total,
            done: 0,
            ok: 0,
            failed: 0,
            error: None,
            started_at,
        };
        let ghost jv = job@;
        self.keys.push(id);
        self.jobs.push(job);
        self.cancelled.push(false);
        proof {
            assert(self@.jobs =~= j0.push(jv));
            assert(self@.keys =~= k0.push(id));
        }
        id
    }

    /// The job stored under an id.
    pub fn get(&self, id: u64) -> (r: Option<BatchJob>)
        requires
            self.wf(),
        ensures
            batch_get_spec(self@, id) == match r {
                Some(j) => Some(j@),
                None => None,
            },
    {
        match self.position(id) {
            Some(i) => {
                let j = copy_batch_job(&self.jobs[i]);
                assert(self@.jobs[i as int] == j@);
                Some(j)
            },
            None => None,
        }
    }

    /// Whether the job was cancelled (`false` for unknown ids).
    pub fn is_cancelled(&self, id: u64) -> (r: bool)
        requires
            self.wf(),
        ensures
            r == batch_cancelled_spec(self@, id),
    {
        match self.position(id) {
            Some(i) => self.cancelled[i],
            None => false,
        }
    }

    /// Sets the cancel flag of a known job; `false` for unknown ids.
    pub fn cancel(&mut self, id: u64) -> (r: bool)
        requires
            old(self).wf(),
        ensures
            final(self).wf(),
            r == (batch_pos(old(self)@, id) is Some),
            final(self)@.jobs == old(self)@.jobs,
            final(self)@.keys == old(self)@.keys,
            final(self)@.next_id == old(self)@.next_id,
            final(self)@.cancelled == match batch_pos(old(self)@, id) {
                Some(i) => old(self)@.cancelled.update(i, true),
                None => old(self)@.cancelled,
            },
    {
        match self.position(id) {
            Some(i) => {
                self.cancelled.set(i, true);
                true
            },
            None => false,
        }
    }

    /// Applies `f` to the job stored under a known id: the stored job becomes
    /// what `f` leaves in a copy of it. Unknown ids are ignored, and nothing
    /// else changes.
    pub fn update<F: FnOnce(&mut BatchJob)>(&mut self, id: u64, f: F)
        requires
            old(self).wf(),
            forall|j: &mut BatchJob| call_requires(f, (j,)),
        ensures
            final(self).wf(),
            final(self)@.next_id == old(self)@.next_id,
            final(self)@.keys == old(self)@.keys,
            final(self)@.cancelled == old(self)@.cancelled,
            final(self)@.jobs.len() == old(self)@.jobs.len(),
            forall|k: int|
                0 <= k < old(self)@.jobs.len() && batch_pos(old(self)@, id) != Some(k) ==> #[trigger] final(self)@.jobs[k] == old(self)@.jobs[k],
            match batch_pos(old(self)@, id) {
                Some(i) => exists|m: &mut BatchJob|
                    mut_ref_current(m)@ == old(self)@.jobs[i] && #[trigger] call_ensures(f, (m,), ())
                        && final(self)@.jobs[i] == mut_ref_future(m)@,
                None => final(self)@.jobs == old(self)@.jobs,
            },
    {
        match self.position(id) {
            Some(i) => {
                let ghost j0 = self@.jobs;
                let mut j = copy_batch_job(&self.jobs[i]);
                let ghost before = j;
                f(&mut j);
                proof {
                    assert(exists|m: &mut BatchJob|
                        mut_ref_current(m) == before && #[trigger] call_ensures(f, (m,), ()) && mut_ref_future(m) == j);
                }
                let ghost jv = j@;
                self.jobs.set(i, j);
                proof {
                    assert(self@.jobs =~= j0.update(i as int, jv));
                }
            },
            None => {},
        }
    }
}

/// The public status of a queued job: pending counts as running; failed and
/// dead are reported as error.
pub open spec fn public_status(status: Seq<char>) -> Seq<char> {
    if status == "done"@ {
        "done"@
    } else if status == "cancelled"@ {
        "cancelled"@
    } else if status == "failed"@ || status == "dead"@ {
        "error"@
    } else {
        "running"@
    }
}

/// Maps a stored queue status to the four public statuses.
pub fn job_view_status(status: &str) -> (r: &'static str)
    ensures
        r@ == public_status(status@),
{
    if str_eq(status, "done") {
        "done"
    } else if str_eq(status, "cancelled") {
        "cancelled"
    } else if str_eq(status, "failed") || str_eq(status, "dead") {
        "error"
    } else {
        "running"
    }
}

/// The public view of a queued job.
#[derive(Debug, Clone, PartialEq)]
pub struct JobView {
    pub id: i64,
    /// running | done | cancelled | error
    pub status: String,
    pub total: usize,
    pub done: usize,
    pub ok: usize,
    pub failed: usize,
}

/// A progress counter: the member's unsigned integer, else 0.
pub open spec fn progress_count(progress: Option<JsonView>, key: Seq<char>) -> usize {
    match progress {
        Some(p) => match member(p, key) {
            Some(v) => match u64_of(v) {
                Some(n) => n as usize,
                None => 0,
            },
            None => 0,
        },
        None => 0,
    }
}

fn count_of(progress: Option<&Json>, key: &str) -> (r: usize)
    ensures
        r == progress_count(
            match progress {
                Some(p) => Some(p@),
                None => None,
            },
            key@,
        ),
{
    match progress {
        Some(p) => match p.get(key) {
            Some(v) => match v.as_u64() {
                Some(n) => n as usize,
                None => 0,
            },
            None => 0,
        },
        None => 0,
    }
}

/// The public view of a stored queue job: the public status, the total (0 when
/// negative) and the progress counters (0 when absent).
pub fn job_view(id: i64, status: &str, total: i32, progress: Option<&Json>) -> (v: JobView)
    ensures
        v.id == id,
        v.status@ == public_status(status@),
        v.total == (if total < 0 {
            0
        } else {
            total as usize
        }),
        v.done == progress_count(
            match progress {
                Some(p) => Some(p@),
                None => None,
            },
            "done"@,
        ),
        v.ok == progress_count(
            match progress {
                Some(p) => Some(p@),
                None => None,
            },
            "ok"@,
        ),
        v.failed == progress_count(
            match progress {
                Some(p) => Some(p@),
                None => None,
            },
            "failed"@,
        ),
{
    JobView {
        id,
        status: owned(job_view_status(status)),
        total: if total < 0 {
            0
        } else {
            total as usize
        },
        done: count_of(progress, "done"),
        ok: count_of(progress, "ok"),
        failed: count_of(progress, "failed"),
    }
}

} // verus!
