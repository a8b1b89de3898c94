//! Bookkeeping of restores started from the dashboard.
//!
//! A restore writes the latest backed-up state of a job into a
//! destination directory. The destination must be non-empty once trimmed
//! and free of `..` components, and at most one restore may be running
//! per job and destination; restores of one job into different
//! destinations are independent.

use vstd::prelude::*;
use crate::config::Config;
use crate::paths::{has_segment, contains_segment};
use crate::text::{owned, concat3, str_eq, trim, trim_str};
use super::models::{RestoreRun, running};

verus! {

broadcast use vstd::string::group_string_axioms;

/// Why a restore could not be started.
#[derive(Debug)]
pub enum RestoreError {
    /// The job is not in the configuration.
    UnknownJob { job: String },
    /// The destination is empty or holds a `..` component.
    InvalidDest { reason: String },
    /// A restore of the same job into the same destination is running.
    AlreadyRunning { run_id: String },
    /// The run store refused the record.
    Persistence { reason: String },
}

impl RestoreError {
    /// The human-readable description.
    pub fn message(&self) -> (m: String)
        ensures
            m@ == (match self {
                RestoreError::UnknownJob { job } => "unknown job `"@ + job@ + "`"@,
                RestoreError::InvalidDest { reason } => "invalid dest_dir: "@ + reason@ + ""@,
                RestoreError::AlreadyRunning { run_id } => "a restore is already in progress (id = "@
                    + run_id@ + ")"@,
                RestoreError::Persistence { reason } => "persistence error: "@ + reason@ + ""@,
            }),
    {
        match self {
            RestoreError::UnknownJob { job } => concat3("unknown job `", job.as_str(), "`"),
            RestoreError::InvalidDest { reason } => concat3("invalid dest_dir: ", reason.as_str(), ""),
            RestoreError::AlreadyRunning { run_id } => concat3(
                "a restore is already in progress (id = ",
                run_id.as_str(),
                ")",
            ),
            RestoreError::Persistence { reason } => concat3(
                "persistence error: ",
                reason.as_str(),
                "",
            ),
        }
    }
}

/// The destination a restore may write into: `raw` trimmed, when that is
/// non-empty and has no `..` component.
pub open spec fn valid_dest(raw: Seq<char>) -> Option<Seq<char>> {
    let t = trim(raw);
    if t.len() == 0 || has_segment(t, ".."@) {
        None
    } else {
        Some(t)
    }
}

/// The trimmed destination, or why it is refused: an empty one first,
/// then one with a `..` component.
pub fn validate_dest_dir(raw: &str) -> (r: Result<String, RestoreError>)
    ensures
        match r {
            Ok(d) => valid_dest(raw@) == Some(d@),
            Err(RestoreError::InvalidDest { reason }) => valid_dest(raw@) is None && reason@ == (if trim(
                raw@,
            ).len() == 0 {
                "dest_dir is empty"@
            } else {
                "path traversal segment `..` not allowed"@
            }),
            Err(_) => false,
        },
{
    let t = trim_str(raw);
    if t.unicode_len() == 0 {
        return Err(RestoreError::InvalidDest { reason: owned("dest_dir is empty") });
    }
    if contains_segment(t, "..") {
        return Err(RestoreError::InvalidDest { reason: owned("path traversal segment `..` not allowed") });
    }
    Ok(owned(t))
}

/// An accepted destination is accepted again as it is: validation is
/// idempotent.
pub proof fn lemma_valid_dest_is_fixed_point(raw: Seq<char>)
    requires
        valid_dest(raw) is Some,
    ensures
        valid_dest(valid_dest(raw)->0) == valid_dest(raw),
{
    crate::text::lemma_trim_idempotent(raw);
}

/// `r` is a running restore of `job` into `dest`.
pub open spec fn restoring(r: RestoreRun, job: Seq<char>, dest: Seq<char>) -> bool {
    r.job_name@ == job && r.dest_dir@ == dest && r.status@ == running()
}

/// No two running restores share a job and a destination.
pub open spec fn one_restore_per_dest(runs: Seq<RestoreRun>) -> bool {
    forall|i: int, j: int|
        0 <= i < j < runs.len() && (#[trigger] runs[i]).status@ == running() && (#[trigger] runs[j]).status@
            == running() ==> !(runs[i].job_name@ == runs[j].job_name@ && runs[i].dest_dir@
            == runs[j].dest_dir@)
}

/// A restore of `job` into `dest` may start.
pub open spec fn restore_admitted(cfg: Config, job: Seq<char>, dest: Seq<char>, runs: Seq<RestoreRun>) -> bool {
    cfg.jobs.has_key(job) && forall|k: int| 0 <= k < runs.len() ==> !restoring(#[trigger] runs[k], job, dest)
}

/// Whether a restore of `job_name` into `dest_raw` may start given the
/// recorded `runs`: an unknown job is refused first, then an invalid
/// destination, then a destination with a running restore of the job
/// (the first one is named). On success, the validated destination.
pub fn check_new_restore(cfg: &Config, job_name: &str, dest_raw: &str, runs: &Vec<RestoreRun>) -> (r:
    Result<String, RestoreError>)
    ensures
        match r {
            Ok(d) => valid_dest(dest_raw@) == Some(d@) && restore_admitted(*cfg, job_name@, d@, runs@),
            Err(RestoreError::UnknownJob { job }) => !cfg.jobs.has_key(job_name@) && job@ == job_name@,
            Err(RestoreError::InvalidDest { .. }) => cfg.jobs.has_key(job_name@) && valid_dest(dest_raw@) is None,
            Err(RestoreError::AlreadyRunning { run_id }) => cfg.jobs.has_key(job_name@) && exists|i: int|
                0 <= i < runs@.len() && restoring(runs@[i], job_name@, valid_dest(dest_raw@)->0) && run_id@
                    == runs@[i].id@ && valid_dest(dest_raw@) is Some && forall|k: int|
                    0 <= k < i ==> !restoring(#[trigger] runs@[k], job_name@, valid_dest(dest_raw@)->0),
            Err(RestoreError::Persistence { .. }) => false,
        },
{
    if !cfg.jobs.contains_key(job_name) {
        return Err(RestoreError::UnknownJob { job: owned(job_name) });
    }
    let dest = match validate_dest_dir(dest_raw) {
        Ok(d) => d,
        Err(e) => return Err(e),
    };
    let mut i: usize = 0;
    while i < runs.len()
        invariant
            i <= runs@.len(),
            cfg.jobs.has_key(job_name@),
            valid_dest(dest_raw@) == Some(dest@),
            forall|k: int| 0 <= k < i ==> !restoring(#[trigger] runs@[k], job_name@, dest@),
        decreases runs.len() - i,
    {
        if str_eq(runs[i].job_name.as_str(), job_name) && str_eq(runs[i].dest_dir.as_str(), dest.as_str())
            && str_eq(runs[i].status.as_str(), "running") {
            assert(restoring(runs@[i as int], job_name@, dest@));
            return Err(RestoreError::AlreadyRunning { run_id: owned(runs[i].id.as_str()) });
        }
        i += 1;
    }
    Ok(dest)
}

/// The record of a restore that starts now.
pub fn new_restore_run(id: String, job_name: &str, dest_dir: String, started_at: String, trigger: &str) -> (r:
    RestoreRun)
    ensures
        r.id@ == id@,
        r.job_name@ == job_name@,
        r.dest_dir@ == dest_dir@,
        r.started_at@ == started_at@,
        r.finished_at is None,
        r.status@ == running(),
        r.failure_reason is None,
        r.trigger@ == trigger@,
{
    RestoreRun {
        id,
        job_name: owned(job_name),
        dest_dir,
        started_at,
        finished_at: None,
        status: owned("running"),
        failure_reason: None,
        trigger: owned(trigger),
    }
}

/// `run` after it succeeded: status `success` and the end time set.
pub fn mark_restore_success(run: RestoreRun, finished_at: String) -> (r: RestoreRun)
    ensures
        r.status@ == "success"@,
        r.finished_at matches Some(f) && f@ == finished_at@,
        r.id == run.id,
        r.job_name == run.job_name,
        r.dest_dir == run.dest_dir,
        r.started_at == run.started_at,
        r.failure_reason == run.failure_reason,
        r.trigger == run.trigger,
{
    RestoreRun { status: owned("success"), finished_at: Some(finished_at), ..run }
}

/// `run` after it failed for `reason`.
pub fn mark_restore_failure(run: RestoreRun, reason: &str, finished_at: String) -> (r: RestoreRun)
    ensures
        r.status@ == "failed"@,
        r.failure_reason matches Some(s) && s@ == reason@,
        r.finished_at matches Some(f) && f@ == finished_at@,
        r.id == run.id,
        r.job_name == run.job_name,
        r.dest_dir == run.dest_dir,
        r.started_at == run.started_at,
        r.trigger == run.trigger,
{
    RestoreRun {
        status: owned("failed"),
        failure_reason: Some(owned(reason)),
        finished_at: Some(finished_at),
        ..run
    }
}

/// Starting an admitted restore keeps at most one running restore per
/// job and destination.
pub proof fn lemma_admitted_restore_keeps_one_per_dest(
    cfg: Config,
    runs: Seq<RestoreRun>,
    job: Seq<char>,
    dest: Seq<char>,
    new: RestoreRun,
)
    requires
        one_restore_per_dest(runs),
        restore_admitted(cfg, job, dest, runs),
        new.job_name@ == job,
        new.dest_dir@ == dest,
    ensures
        one_restore_per_dest(runs.push(new)),
{
    let all = runs.push(new);
    assert forall|i: int, j: int|
        0 <= i < j < all.len() && (#[trigger] all[i]).status@ == running() && (#[trigger] all[j]).status@
            == running() implies !(all[i].job_name@ == all[j].job_name@ && all[i].dest_dir@
        == all[j].dest_dir@) by {
        if j == runs.len() {
            assert(!restoring(runs[i], job, dest));
        } else {
            assert(runs[i] == all[i] && runs[j] == all[j]);
        }
    }
}

} // verus!
