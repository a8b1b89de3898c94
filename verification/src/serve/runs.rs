//! Bookkeeping of backup runs started from the dashboard.
//!
//! A run may start only for a job of the configuration, and only when no
//! other run of the same job is still running; a run then ends as a
//! success (with its snapshot) or a failure (with its reason). Storing the
//! records and doing the backup are the caller's part.

use vstd::prelude::*;
use crate::backup::SnapshotInfo;
use crate::config::Config;
use crate::text::{owned, concat3, str_eq};
use super::models::{JobRun, running};

verus! {

broadcast use vstd::string::group_string_axioms;

/// Why a run could not be started.
#[derive(Debug)]
pub enum TriggerError {
    /// The job is not in the configuration.
    UnknownJob { job: String },
    /// Another run of the job is still running.
    AlreadyRunning { run_id: String },
    /// The run store refused the record.
    Persistence { reason: String },
}

impl TriggerError {
    /// The human-readable description.
    pub fn message(&self) -> (m: String)
        ensures
            m@ == (match self {
                TriggerError::UnknownJob { job } => "unknown job `"@ + job@ + "`"@,
                TriggerError::AlreadyRunning { run_id } => "a run is already in progress (id = "@
                    + run_id@ + ")"@,
                TriggerError::Persistence { reason } => "persistence error: "@ + reason@ + ""@,
            }),
    {
        match self {
            TriggerError::UnknownJob { job } => concat3("unknown job `", job.as_str(), "`"),
            TriggerError::AlreadyRunning { run_id } => concat3(
                "a run is already in progress (id = ",
                run_id.as_str(),
                ")",
            ),
            TriggerError::Persistence { reason } => concat3(
                "persistence error: ",
                reason.as_str(),
                "",
            ),
        }
    }

    /// The machine-readable error code of the dashboard's answer.
    pub fn code(&self) -> (c: &'static str)
        ensures
            c@ == (match self {
                TriggerError::UnknownJob { .. } => "unknown_job"@,
                TriggerError::AlreadyRunning { .. } => "already_running"@,
                TriggerError::Persistence { .. } => "persistence"@,
            }),
    {
        match self {
            TriggerError::UnknownJob { .. } => "unknown_job",
            TriggerError::AlreadyRunning { .. } => "already_running",
            TriggerError::Persistence { .. } => "persistence",
        }
    }

    /// The HTTP status of the dashboard's answer: 404, 409 or 500.
    pub fn http_status(&self) -> (s: u16)
        ensures
            s == (match self {
                TriggerError::UnknownJob { .. } => 404u16,
                TriggerError::AlreadyRunning { .. } => 409u16,
                TriggerError::Persistence { .. } => 500u16,
            }),
    {
        match self {
            TriggerError::UnknownJob { .. } => 404,
            TriggerError::AlreadyRunning { .. } => 409,
            TriggerError::Persistence { .. } => 500,
        }
    }
}

/// `r` is a running run of `job`.
pub open spec fn running_of(r: JobRun, job: Seq<char>) -> bool {
    r.job_name@ == job && r.status@ == running()
}

/// No two running runs belong to the same job.
pub open spec fn one_running_per_job(runs: Seq<JobRun>) -> bool {
    forall|i: int, j: int|
        0 <= i < j < runs.len() && (#[trigger] runs[i]).status@ == running() && (#[trigger] runs[j]).status@
            == running() ==> runs[i].job_name@ != runs[j].job_name@
}

/// A new run of `job` may start: the job is configured and none of its
/// runs is running.
pub open spec fn run_admitted(cfg: Config, job: Seq<char>, runs: Seq<JobRun>) -> bool {
    cfg.jobs.has_key(job) && forall|k: int| 0 <= k < runs.len() ==> !running_of(#[trigger] runs[k], job)
}

/// Whether a run of `job_name` may start given the recorded `runs`: an
/// unknown job is refused first, then a job with a running run (the
/// first one is named).
pub fn check_new_run(cfg: &Config, job_name: &str, runs: &Vec<JobRun>) -> (r: Result<(), TriggerError>)
    ensures
        match r {
            Ok(()) => run_admitted(*cfg, job_name@, runs@),
            Err(TriggerError::UnknownJob { job }) => !cfg.jobs.has_key(job_name@) && job@ == job_name@,
            Err(TriggerError::AlreadyRunning { run_id }) => cfg.jobs.has_key(job_name@) && exists|i: int|
                0 <= i < runs@.len() && running_of(runs@[i], job_name@) && run_id@ == runs@[i].id@
                    && forall|k: int| 0 <= k < i ==> !running_of(#[trigger] runs@[k], job_name@),
            Err(TriggerError::Persistence { .. }) => false,
        },
{
    if !cfg.jobs.contains_key(job_name) {
        return Err(TriggerError::UnknownJob { job: owned(job_name) });
    }
    let mut i: usize = 0;
    while i < runs.len()
        invariant
            i <= runs@.len(),
            cfg.jobs.has_key(job_name@),
            forall|k: int| 0 <= k < i ==> !running_of(#[trigger] runs@[k], job_name@),
        decreases runs.len() - i,
    {
        if str_eq(runs[i].job_name.as_str(), job_name) && str_eq(runs[i].status.as_str(), "running") {
            assert(running_of(runs@[i as int], job_name@));
            return Err(TriggerError::AlreadyRunning { run_id: owned(runs[i].id.as_str()) });
        }
        i += 1;
    }
    Ok(())
}

/// A fresh running run: no end, no outcome yet.
pub open spec fn fresh_run(r: JobRun, id: Seq<char>, job: Seq<char>, started_at: Seq<char>, trigger: Seq<
    char,
>) -> bool {
    &&& r.id@ == id
    &&& r.job_name@ == job
    &&& r.started_at@ == started_at
    &&& r.finished_at is None
    &&& r.status@ == running()
    &&& r.failure_reason is None
    &&& r.snapshot_id is None
    &&& r.bytes_processed is None
    &&& r.bytes_added is None
    &&& r.trigger@ == trigger
}

/// The record of a run that starts now.
pub fn new_run(id: String, job_name: &str, started_at: String, trigger: &str) -> (r: JobRun)
    ensures
        fresh_run(r, id@, job_name@, started_at@, trigger@),
{
    JobRun {
        id,
        job_name: owned(job_name),
        started_at,
        finished_at: None,
        status: owned("running"),
        failure_reason: None,
        snapshot_id: None,
        bytes_processed: None,
        bytes_added: None,
        trigger: owned(trigger),
    }
}

/// `run` after it succeeded with `snapshot`: status `success`, the
/// snapshot's id and sizes recorded, the end time set; the rest kept.
pub fn mark_success(run: JobRun, snapshot: &SnapshotInfo, finished_at: String) -> (r: JobRun)
    ensures
        r.status@ == "success"@,
        r.snapshot_id matches Some(s) && s@ == snapshot.id@,
        r.bytes_processed == snapshot.total_bytes_processed,
        r.bytes_added == snapshot.data_added,
        r.finished_at matches Some(f) && f@ == finished_at@,
        r.id == run.id,
        r.job_name == run.job_name,
        r.started_at == run.started_at,
        r.failure_reason == run.failure_reason,
        r.trigger == run.trigger,
{
    JobRun {
        status: owned("success"),
        snapshot_id: Some(owned(snapshot.id.as_str())),
        bytes_processed: snapshot.total_bytes_processed,
        bytes_added: snapshot.data_added,
        finished_at: Some(finished_at),
        ..run
    }
}

/// `run` after it failed for `reason`: status `failed`, the reason and
/// the end time recorded; the rest kept.
pub fn mark_failure(run: JobRun, reason: &str, finished_at: String) -> (r: JobRun)
    ensures
        r.status@ == "failed"@,
        r.failure_reason matches Some(s) && s@ == reason@,
        r.finished_at matches Some(f) && f@ == finished_at@,
        r.id == run.id,
        r.job_name == run.job_name,
        r.started_at == run.started_at,
        r.snapshot_id == run.snapshot_id,
        r.bytes_processed == run.bytes_processed,
        r.bytes_added == run.bytes_added,
        r.trigger == run.trigger,
{
    JobRun {
        status: owned("failed"),
        failure_reason: Some(owned(reason)),
        finished_at: Some(finished_at),
        ..run
    }
}

/// Starting an admitted run keeps at most one running run per job.
pub proof fn lemma_admitted_run_keeps_one_running(
    cfg: Config,
    runs: Seq<JobRun>,
    job: Seq<char>,
    new: JobRun,
)
    requires
        one_running_per_job(runs),
        run_admitted(cfg, job, runs),
        new.job_name@ == job,
    ensures
        one_running_per_job(runs.push(new)),
{
    let all = runs.push(new);
    assert forall|i: int, j: int|
        0 <= i < j < all.len() && (#[trigger] all[i]).status@ == running() && (#[trigger] all[j]).status@
            == running() implies all[i].job_name@ != all[j].job_name@ by {
        if j == runs.len() {
            assert(!running_of(runs[i], job));
        } else {
            assert(runs[i] == all[i] && runs[j] == all[j]);
        }
    }
}

/// Once the running run of a job has finished, a new run of that job is
/// admitted again.
pub proof fn lemma_finished_run_frees_job(cfg: Config, runs: Seq<JobRun>, i: int, done: JobRun)
    requires
        one_running_per_job(runs),
        0 <= i < runs.len(),
        runs[i].status@ == running(),
        cfg.jobs.has_key(runs[i].job_name@),
        done.job_name == runs[i].job_name,
        done.status@ != running(),
    ensures
        run_admitted(cfg, runs[i].job_name@, runs.update(i, done)),
{
    let job = runs[i].job_name@;
    let after = runs.update(i, done);
    assert forall|k: int| 0 <= k < after.len() implies !running_of(#[trigger] after[k], job) by {
        if k != i && running_of(after[k], job) {
            assert(after[k] == runs[k]);
            if k < i {
                assert(runs[k].status@ == running() && runs[i].status@ == running());
            } else {
                assert(runs[i].status@ == running() && runs[k].status@ == running());
            }
        }
    }
}

} // verus!
