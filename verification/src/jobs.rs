use vstd::prelude::*;

use crate::ids::{now, Timestamp};
use crate::text;

verus! {

/// Where a queued job stands.
#[derive(Debug, Clone)]
pub enum JobStatus {
    Queued,
    Running,
    Completed,
    Failed(String),
}

impl JobStatus {
    /// A copy of this status.
    pub fn duplicate(&self) -> (r: JobStatus)
        ensures
            r == *self,
    {
        match self {
            JobStatus::Queued => JobStatus::Queued,
            JobStatus::Running => JobStatus::Running,
            JobStatus::Completed => JobStatus::Completed,
            JobStatus::Failed(m) => JobStatus::Failed(m.clone()),
        }
    }
}

/// The record kept for one job.
#[derive(Debug, Clone)]
pub struct JobInfo {
    pub id: String,
    pub status: JobStatus,
    pub created_at: Timestamp,
    pub updated_at: Timestamp,
}

/// The bookkeeping of the job queue: how many workers take jobs, how long a
/// worker rests between jobs, and the record of every job enqueued so far, in
/// the order they were enqueued.
pub struct JobQueue {
    pub job_statuses: Vec<JobInfo>,
    pub num_workers: usize,
    pub rate_limit_ms: u64,
}

/// The place of the first record for job `id`, or the number of records if
/// there is none.
pub open spec fn job_position(jobs: Seq<JobInfo>, id: Seq<char>) -> int
    decreases jobs.len(),
{
    if jobs.len() == 0 {
        0
    } else if jobs[0].id@ == id {
        0
    } else {
        1 + job_position(jobs.drop_first(), id)
    }
}

/// The status recorded for job `id`: that of its first record.
pub open spec fn status_of(jobs: Seq<JobInfo>, id: Seq<char>) -> Option<JobStatus> {
    let p = job_position(jobs, id);
    if p < jobs.len() {
        Some(jobs[p].status)
    } else {
        None
    }
}

/// The records after the first record of job `id` is given `status` and the
/// time `t`; unchanged when the job has no record.
pub open spec fn with_status(jobs: Seq<JobInfo>, id: Seq<char>, status: JobStatus, t: Timestamp) -> Seq<JobInfo> {
    let p = job_position(jobs, id);
    if p < jobs.len() {
        jobs.update(
            p,
            JobInfo { id: jobs[p].id, status: status, created_at: jobs[p].created_at, updated_at: t },
        )
    } else {
        jobs
    }
}

/// Where `job_position` lands: records before it are for other jobs, and the
/// record at it, if any, is for `id`.
pub proof fn lemma_job_position(jobs: Seq<JobInfo>, id: Seq<char>)
    ensures
        0 <= job_position(jobs, id) <= jobs.len(),
        forall|j: int| 0 <= j < job_position(jobs, id) ==> (#[trigger] jobs[j]).id@ != id,
        job_position(jobs, id) < jobs.len() ==> jobs[job_position(jobs, id)].id@ == id,
    decreases jobs.len(),
{
    if jobs.len() > 0 && jobs[0].id@ != id {
        lemma_job_position(jobs.drop_first(), id);
        assert forall|j: int| 0 <= j < job_position(jobs, id) implies (#[trigger] jobs[j]).id@
            != id by {
            if j > 0 {
                assert(jobs[j] == jobs.drop_first()[j - 1]);
            }
        }
    }
}

proof fn lemma_job_position_at(jobs: Seq<JobInfo>, id: Seq<char>, i: int)
    requires
        0 <= i <= jobs.len(),
        forall|j: int| 0 <= j < i ==> (#[trigger] jobs[j]).id@ != id,
        i < jobs.len() ==> jobs[i].id@ == id,
    ensures
        job_position(jobs, id) == i,
    decreases i,
{
    if i > 0 {
        assert(jobs[0].id@ != id);
        let rest = jobs.drop_first();
        assert forall|j: int| 0 <= j < i - 1 implies (#[trigger] rest[j]).id@ != id by {
            assert(rest[j] == jobs[j + 1]);
        }
        lemma_job_position_at(rest, id, i - 1);
    }
}

impl JobQueue {
    /// A queue with the given number of workers and rest time, and no jobs.
    pub fn new(num_workers: usize, rate_limit_ms: u64) -> (q: JobQueue)
        ensures
            q.job_statuses@.len() == 0,
            q.num_workers == num_workers,
            q.rate_limit_ms == rate_limit_ms,
    {
        JobQueue { job_statuses: Vec::new(), num_workers, rate_limit_ms }
    }

    /// The place of the first record for `job_id`, or the number of records.
    fn find_job(&self, job_id: &str) -> (i: usize)
        ensures
            i == job_position(self.job_statuses@, job_id@),
    {
        let key = String::from_str(job_id);
        let n = self.job_statuses.len();
        let mut i: usize = 0;
        while i < n
            invariant
                n == self.job_statuses@.len(),
                i <= n,
                key@ == job_id@,
                forall|j: int| 0 <= j < i ==> (#[trigger] self.job_statuses@[j]).id@ != job_id@,
            decreases n - i,
        {
            if self.job_statuses[i].id == key {
                proof {
                    lemma_job_position_at(self.job_statuses@, job_id@, i as int);
                }
                return i;
            }
            i = i + 1;
        }
        proof {
            lemma_job_position_at(self.job_statuses@, job_id@, n as int);
        }
        n
    }

    /// The status of the first job enqueued under `job_id`, if any.
    pub fn get_job_status(&self, job_id: &str) -> (r: Option<JobStatus>)
        ensures
            r == status_of(self.job_statuses@, job_id@),
    {
        let i = self.find_job(job_id);
        if i < self.job_statuses.len() {
            Some(self.job_statuses[i].status.duplicate())
        } else {
            None
        }
    }

    /// Gives the first job enqueued under `job_id` the status `status`, with
    /// `now` as the time of the change; does nothing if there is no such job.
    pub fn update_job_status_at(&mut self, job_id: &str, status: JobStatus, now: Timestamp)
        ensures
            final(self).job_statuses@ == with_status(old(self).job_statuses@, job_id@, status, now),
            final(self).num_workers == old(self).num_workers,
            final(self).rate_limit_ms == old(self).rate_limit_ms,
    {
        let i = self.find_job(job_id);
        if i < self.job_statuses.len() {
            let id = self.job_statuses[i].id.clone();
            let created_at = self.job_statuses[i].created_at;
            let info = JobInfo { id, status, created_at, updated_at: now };
            self.job_statuses.set(i, info);
        }
    }

    /// Gives the first job enqueued under `job_id` the status `status`, stamped
    /// with the current time; does nothing if there is no such job.
    pub fn update_job_status(&mut self, job_id: &str, status: JobStatus)
        ensures
            exists|t: Timestamp|
                final(self).job_statuses@ == with_status(old(self).job_statuses@, job_id@, status, t),
            final(self).num_workers == old(self).num_workers,
            final(self).rate_limit_ms == old(self).rate_limit_ms,
    {
        let t = now();
        self.update_job_status_at(job_id, status, t);
    }
}

} // verus!

verus! {

/// The status a job ends in: completed when its work succeeded, failed with
/// `Sync job failed: ` and the error's text otherwise.
pub fn final_job_status(result: &Result<(), String>) -> (s: JobStatus)
    ensures
        is_final_status(*result, s),
{
    match result {
        Ok(_) => JobStatus::Completed,
        Err(e) => {
            let mut msg = String::from_str("Sync job failed: ");
            msg.append(e.as_str());
            JobStatus::Failed(msg)
        },
    }
}

/// The value of a numeric setting: the setting read as an unsigned number no
/// larger than `max`, or `default` when it is absent or does not read so.
pub open spec fn setting_value(v: Option<&str>, max: nat, default: nat) -> nat {
    match v {
        Some(s) => match text::parsed_unsigned(s@, max) {
            Some(x) => x,
            None => default,
        },
        None => default,
    }
}

/// The number of workers the setting `v` asks for: its value when it reads as
/// an unsigned number, 4 otherwise.
pub fn workers_setting(v: Option<&str>) -> (n: usize)
    ensures
        n as nat == setting_value(v, usize::MAX as nat, 4),
{
    match v {
        Some(s) => match text::parse_unsigned(s, usize::MAX as u64) {
            Some(x) => x as usize,
            None => 4,
        },
        None => 4,
    }
}

/// The rest between two jobs, in milliseconds, that the setting `v` asks for:
/// its value when it reads as an unsigned number, 500 otherwise.
pub fn rate_limit_setting(v: Option<&str>) -> (ms: u64)
    ensures
        ms as nat == setting_value(v, u64::MAX as nat, 500),
{
    match v {
        Some(s) => match text::parse_unsigned(s, u64::MAX) {
            Some(x) => x,
            None => 500,
        },
        None => 500,
    }
}

impl JobQueue {
    /// A queue configured from the worker-count and rest-time settings, with
    /// no jobs.
    pub fn from_settings(workers: Option<&str>, rate_limit_ms: Option<&str>) -> (q: JobQueue)
        ensures
            q.job_statuses@.len() == 0,
            q.num_workers as nat == setting_value(workers, usize::MAX as nat, 4),
            q.rate_limit_ms as nat == setting_value(rate_limit_ms, u64::MAX as nat, 500),
    {
        JobQueue::new(workers_setting(workers), rate_limit_setting(rate_limit_ms))
    }

    /// Records a job enqueued under `id` as queued, with the given times.
    pub fn record_enqueued_job_at(&mut self, id: String, created_at: Timestamp, updated_at: Timestamp)
        ensures
            final(self).job_statuses@ == old(self).job_statuses@.push(
                JobInfo { id: id, status: JobStatus::Queued, created_at: created_at, updated_at: updated_at },
            ),
            final(self).num_workers == old(self).num_workers,
            final(self).rate_limit_ms == old(self).rate_limit_ms,
    {
        let info = JobInfo { id, status: JobStatus::Queued, created_at, updated_at };
        self.job_statuses.push(info);
    }

    /// Records a job enqueued under `id` as queued, stamped with the current
    /// time.
    pub fn record_enqueued_job(&mut self, id: String)
        ensures
            exists|c: Timestamp, u: Timestamp|
                final(self).job_statuses@ == old(self).job_statuses@.push(
                    JobInfo { id: id, status: JobStatus::Queued, created_at: c, updated_at: u },
                ),
            final(self).num_workers == old(self).num_workers,
            final(self).rate_limit_ms == old(self).rate_limit_ms,
    {
        let created_at = now();
        let updated_at = now();
        self.record_enqueued_job_at(id, created_at, updated_at);
    }

    /// What a worker records once the work of job `job_id` is done: the job
    /// is marked running, then completed or failed according to `result`.
    pub fn record_job_outcome(&mut self, job_id: &str, result: &Result<(), String>)
        ensures
            exists|t1: Timestamp, t2: Timestamp, s: JobStatus|
                is_final_status(*result, s) && final(self).job_statuses@ == with_status(
                    with_status(old(self).job_statuses@, job_id@, JobStatus::Running, t1),
                    job_id@,
                    s,
                    t2,
                ),
            final(self).num_workers == old(self).num_workers,
            final(self).rate_limit_ms == old(self).rate_limit_ms,
    {
        self.update_job_status(job_id, JobStatus::Running);
        let status = final_job_status(result);
        self.update_job_status(job_id, status);
    }
}

/// Whether `s` is the status a job ends in after its work went as `result`
/// (see `final_job_status`).
pub open spec fn is_final_status(result: Result<(), String>, s: JobStatus) -> bool {
    match result {
        Ok(_) => s is Completed,
        Err(e) => s matches JobStatus::Failed(m) && m@ == "Sync job failed: "@ + e@,
    }
}

} // verus!

verus! {

/// A job just enqueued under an id not used before reads as queued.
pub proof fn lemma_enqueued_job_is_queued(jobs: Seq<JobInfo>, info: JobInfo)
    requires
        forall|j: int| 0 <= j < jobs.len() ==> (#[trigger] jobs[j]).id@ != info.id@,
        info.status is Queued,
    ensures
        status_of(jobs.push(info), info.id@) == Some(JobStatus::Queued),
{
    let all = jobs.push(info);
    assert forall|j: int| 0 <= j < jobs.len() implies (#[trigger] all[j]).id@ != info.id@ by {
        assert(all[j] == jobs[j]);
    }
    lemma_job_position_at(all, info.id@, jobs.len() as int);
}

/// Enqueuing a job does not change what any job enqueued before reads as.
pub proof fn lemma_enqueue_keeps_known(jobs: Seq<JobInfo>, info: JobInfo, id: Seq<char>)
    requires
        status_of(jobs, id) is Some,
    ensures
        status_of(jobs.push(info), id) == status_of(jobs, id),
{
    lemma_job_position(jobs, id);
    let p = job_position(jobs, id);
    let all = jobs.push(info);
    assert forall|j: int| 0 <= j < p implies (#[trigger] all[j]).id@ != id by {
        assert(all[j] == jobs[j]);
    }
    lemma_job_position_at(all, id, p);
}

/// After a status change, a job that was known reads as the new status, and
/// an unknown job stays unknown.
pub proof fn lemma_update_then_read(jobs: Seq<JobInfo>, id: Seq<char>, s: JobStatus, t: Timestamp)
    ensures
        status_of(with_status(jobs, id, s, t), id) == (if status_of(jobs, id) is Some {
            Some(s)
        } else {
            None::<JobStatus>
        }),
{
    lemma_job_position(jobs, id);
    let p = job_position(jobs, id);
    let after = with_status(jobs, id, s, t);
    if p < jobs.len() {
        assert forall|j: int| 0 <= j < p implies (#[trigger] after[j]).id@ != id by {
            assert(after[j] == jobs[j]);
        }
        lemma_job_position_at(after, id, p);
    }
}

/// A status change for one job leaves what every other job reads as.
pub proof fn lemma_update_keeps_others(
    jobs: Seq<JobInfo>,
    id: Seq<char>,
    s: JobStatus,
    t: Timestamp,
    other: Seq<char>,
)
    requires
        other != id,
    ensures
        status_of(with_status(jobs, id, s, t), other) == status_of(jobs, other),
{
    lemma_job_position(jobs, id);
    lemma_job_position(jobs, other);
    let p = job_position(jobs, id);
    let q = job_position(jobs, other);
    let after = with_status(jobs, id, s, t);
    assert(after.len() == jobs.len());
    assert forall|j: int| 0 <= j < jobs.len() implies (#[trigger] after[j]).id@ == jobs[j].id@ by {
    }
    assert forall|j: int| 0 <= j < q implies (#[trigger] after[j]).id@ != other by {
        assert(after[j].id@ == jobs[j].id@);
    }
    lemma_job_position_at(after, other, q);
    if q < jobs.len() && p < jobs.len() {
        assert(q != p);
    }
}

/// A status change keeps the number of jobs and each job's id and creation
/// time.
pub proof fn lemma_update_keeps_records(jobs: Seq<JobInfo>, id: Seq<char>, s: JobStatus, t: Timestamp)
    ensures
        with_status(jobs, id, s, t).len() == jobs.len(),
        forall|j: int|
            0 <= j < jobs.len() ==> (#[trigger] with_status(jobs, id, s, t)[j]).id == jobs[j].id
                && with_status(jobs, id, s, t)[j].created_at == jobs[j].created_at,
{
    lemma_job_position(jobs, id);
}

/// Once a worker has recorded the outcome of a known job, the job reads as
/// completed or failed according to that outcome.
pub proof fn lemma_outcome_is_read(
    jobs: Seq<JobInfo>,
    id: Seq<char>,
    result: Result<(), String>,
    s: JobStatus,
    t1: Timestamp,
    t2: Timestamp,
)
    requires
        status_of(jobs, id) is Some,
        is_final_status(result, s),
    ensures
        status_of(with_status(with_status(jobs, id, JobStatus::Running, t1), id, s, t2), id) == Some(s),
        is_final_status(result, s),
{
    lemma_update_then_read(jobs, id, JobStatus::Running, t1);
    lemma_update_then_read(with_status(jobs, id, JobStatus::Running, t1), id, s, t2);
}

} // verus!
