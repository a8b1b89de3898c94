//! Runtime records kept by the dashboard: backup runs, restore runs and
//! the cached projection of snapshots.

use vstd::prelude::*;
use crate::backup::SnapshotInfo;
use crate::text::{owned};

verus! {

broadcast use vstd::string::group_string_axioms;

/// Status of a run that has not finished.
pub open spec fn running() -> Seq<char> {
    "running"@
}

/// One execution of a backup job. `status` is `running`, `success` or
/// `failed`; `trigger` is `cli`, `dashboard` or `scheduled`; times are
/// RFC 3339.
#[derive(Debug)]
pub struct JobRun {
    pub id: String,
    pub job_name: String,
    pub started_at: String,
    pub finished_at: Option<String>,
    pub status: String,
    /// Set only when the run failed.
    pub failure_reason: Option<String>,
    pub snapshot_id: Option<String>,
    pub bytes_processed: Option<u64>,
    pub bytes_added: Option<u64>,
    pub trigger: String,
}

/// One execution of a restore into `dest_dir`.
#[derive(Debug)]
pub struct RestoreRun {
    pub id: String,
    pub job_name: String,
    pub dest_dir: String,
    pub started_at: String,
    pub finished_at: Option<String>,
    pub status: String,
    pub failure_reason: Option<String>,
    pub trigger: String,
}

/// Cached projection of a snapshot of a job.
#[derive(Debug)]
pub struct Snapshot {
    pub id: String,
    pub job_name: String,
    pub time: String,
    pub paths: Vec<String>,
    pub hostname: String,
    pub bytes_total: Option<u64>,
}

/// The projection of `info`, a snapshot of `job_name`.
pub fn snapshot_from_info(job_name: &str, info: SnapshotInfo) -> (s: Snapshot)
    ensures
        s.id@ == info.id@,
        s.job_name@ == job_name@,
        s.time@ == info.time@,
        s.paths@ == info.paths@,
        s.hostname@ == info.hostname@,
        s.bytes_total == info.total_bytes_processed,
{
    Snapshot {
        id: info.id,
        job_name: owned(job_name),
        time: info.time,
        paths: info.paths,
        hostname: info.hostname,
        bytes_total: info.total_bytes_processed,
    }
}

} // verus!
