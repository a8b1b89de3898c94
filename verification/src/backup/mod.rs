//! Backup engines and the values they exchange with their callers.
//!
//! Two engines exist: [`rustic::RusticEngine`] (deduplicated, encrypted,
//! restic-compatible snapshots) and [`mirror::MirrorEngine`] (a browsable
//! copy of the sources plus a `.versions/` archive). [`engine_for`] picks
//! one from the repository's declared backend.

pub mod content;
pub mod excludes;
pub mod mirror;
pub mod naming;
pub mod rustic;
pub mod times;

use vstd::prelude::*;
use crate::config::{BackendKind, Repository};
use crate::order::Listed;
use crate::table::Table;
use crate::text::{concat2, str_lt};

pub use mirror::MirrorEngine;
pub use rustic::RusticEngine;

verus! {

broadcast use vstd::string::group_string_axioms;

/// Tag prefix attached to every snapshot, followed by the job name.
pub const JOB_TAG_PREFIX: &'static str = "kovre-job:";

/// The tag `kovre-job:<job_name>`.
pub open spec fn job_tag_of(job_name: Seq<char>) -> Seq<char> {
    "kovre-job:"@ + job_name
}

/// The tag identifying the snapshots of `job_name`.
pub fn job_tag(job_name: &str) -> (t: String)
    ensures
        t@ == job_tag_of(job_name@),
{
    concat2(JOB_TAG_PREFIX, job_name)
}

/// What to back up: source paths, exclude globs (a bare pattern means
/// "exclude what matches"), and optional per-path labels naming the
/// directory a source is mirrored under.
#[derive(Debug)]
pub struct BackupSource {
    pub paths: Vec<String>,
    pub excludes: Vec<String>,
    pub path_labels: Table<String>,
}

/// Summary of one snapshot. Engines without native snapshots synthesize
/// one per backup run.
#[derive(Debug)]
pub struct SnapshotInfo {
    pub id: String,
    /// The snapshot's time as written for display (with its offset).
    pub time: String,
    /// The same time as an instant: nanoseconds since the Unix epoch.
    pub epoch_nanos: i128,
    pub paths: Vec<String>,
    pub hostname: String,
    pub tags: Vec<String>,
    pub total_bytes_processed: Option<u64>,
    pub data_added: Option<u64>,
}

/// Newest first: a snapshot precedes another when its time sorts after.
impl Listed for SnapshotInfo {
    open spec fn goes_before(&self, other: &Self) -> bool {
        crate::text::seq_lt(other.time@, self.time@)
    }

    proof fn lemma_goes_before_irreflexive(a: &Self) {
        crate::text::lemma_seq_lt_irreflexive(a.time@);
    }

    proof fn lemma_goes_before_transitive(a: &Self, b: &Self, c: &Self) {
        crate::text::lemma_seq_lt_transitive(c.time@, b.time@, a.time@);
    }

    fn goes_before_exec(&self, other: &Self) -> (b: bool) {
        str_lt(other.time.as_str(), self.time.as_str())
    }
}

/// Outcome of applying retention to one job's history.
#[derive(Debug, Clone, Copy, PartialEq, Eq, Structural)]
pub struct RetentionOutcome {
    pub kept: usize,
    pub forgotten: usize,
}

impl Default for RetentionOutcome {
    fn default() -> (r: Self)
        ensures
            r.kept == 0 && r.forgotten == 0,
    {
        RetentionOutcome { kept: 0, forgotten: 0 }
    }
}

/// One entry of a browsed directory of a backup.
#[derive(Debug)]
pub struct BrowseEntry {
    pub name: String,
    pub is_dir: bool,
    /// Size in bytes; `None` for directories.
    pub size: Option<u64>,
    /// Modification time of a file, RFC 3339.
    pub modified: Option<String>,
    /// Number of archived versions of a file.
    pub versions_count: u32,
}

/// Directories first, then by name.
impl Listed for BrowseEntry {
    open spec fn goes_before(&self, other: &Self) -> bool {
        (self.is_dir && !other.is_dir) || (self.is_dir == other.is_dir && crate::text::seq_lt(
            self.name@,
            other.name@,
        ))
    }

    proof fn lemma_goes_before_irreflexive(a: &Self) {
        crate::text::lemma_seq_lt_irreflexive(a.name@);
    }

    proof fn lemma_goes_before_transitive(a: &Self, b: &Self, c: &Self) {
        if a.is_dir == b.is_dir && b.is_dir == c.is_dir {
            crate::text::lemma_seq_lt_transitive(a.name@, b.name@, c.name@);
        }
    }

    fn goes_before_exec(&self, other: &Self) -> (b: bool) {
        (self.is_dir && !other.is_dir) || (self.is_dir == other.is_dir && str_lt(
            self.name.as_str(),
            other.name.as_str(),
        ))
    }
}

/// One archived version of a file.
#[derive(Debug)]
pub struct VersionInfo {
    pub name: String,
    pub timestamp: String,
    pub size: u64,
}

/// Newest first.
impl Listed for VersionInfo {
    open spec fn goes_before(&self, other: &Self) -> bool {
        crate::text::seq_lt(other.timestamp@, self.timestamp@)
    }

    proof fn lemma_goes_before_irreflexive(a: &Self) {
        crate::text::lemma_seq_lt_irreflexive(a.timestamp@);
    }

    proof fn lemma_goes_before_transitive(a: &Self, b: &Self, c: &Self) {
        crate::text::lemma_seq_lt_transitive(c.timestamp@, b.timestamp@, a.timestamp@);
    }

    fn goes_before_exec(&self, other: &Self) -> (b: bool) {
        str_lt(other.timestamp.as_str(), self.timestamp.as_str())
    }
}

/// Outcome of a repository integrity check: `ok` when no severe problem
/// was found, with human-readable findings.
#[derive(Debug)]
pub struct VerifyOutcome {
    pub ok: bool,
    pub messages: Vec<String>,
}

/// The engine serving a repository.
#[derive(Debug)]
pub enum Engine {
    Rustic(RusticEngine),
    Mirror(MirrorEngine),
}

impl Engine {
    /// The repository the engine serves.
    pub open spec fn repo(&self) -> Repository {
        match self {
            Engine::Rustic(e) => e.repo(),
            Engine::Mirror(e) => e.repo(),
        }
    }
}

/// The engine for `repo`, chosen by its declared backend.
pub fn engine_for(repo: &Repository) -> (e: Engine)
    ensures
        e.repo() == *repo,
        repo.backend == BackendKind::Rustic <==> e is Rustic,
        repo.backend == BackendKind::Mirror <==> e is Mirror,
{
    match repo.backend {
        BackendKind::Rustic => Engine::Rustic(RusticEngine::new(repo.duplicate())),
        BackendKind::Mirror => Engine::Mirror(MirrorEngine::new(repo.duplicate())),
    }
}

/// Why a backup could not start.
#[derive(Debug, Clone, Copy, PartialEq, Eq, Structural)]
pub enum SourceError {
    /// None of the source paths exists on this machine.
    NothingToBackUp,
}

/// The elements of `paths` whose flag in `present` is set, in order.
pub open spec fn present_paths(paths: Seq<Seq<char>>, present: Seq<bool>) -> Seq<Seq<char>>
    decreases paths.len(),
{
    if paths.len() == 0 || present.len() == 0 {
        Seq::empty()
    } else {
        let rest = present_paths(paths.drop_last(), present.drop_last());
        if present.last() {
            rest.push(paths.last())
        } else {
            rest
        }
    }
}

/// The sources kept are exactly the paths whose flag is set, in their
/// order (for flags as many as the paths).
pub proof fn lemma_present_paths_are_flagged(paths: Seq<Seq<char>>, present: Seq<bool>)
    requires
        paths.len() == present.len(),
    ensures
        present_paths(paths, present) == paths.zip_with(present).filter(|e: (Seq<char>, bool)| e.1).map_values(
            |e: (Seq<char>, bool)| e.0,
        ),
    decreases paths.len(),
{
    reveal(Seq::filter);
    if paths.len() > 0 {
        lemma_present_paths_are_flagged(paths.drop_last(), present.drop_last());
        let z = paths.zip_with(present);
        assert(z.drop_last() =~= paths.drop_last().zip_with(present.drop_last()));
        assert(z.last() == (paths.last(), present.last()));
        let f = |e: (Seq<char>, bool)| e.1;
        let g = |e: (Seq<char>, bool)| e.0;
        let sub = z.drop_last().filter(f);
        assert(sub.push(z.last()).map_values(g) =~= sub.map_values(g).push(paths.last()));
    }
}

/// Keep the source paths that exist (`present[i]` tells whether
/// `paths[i]` exists); fails when none does.
pub fn existing_sources(paths: &Vec<String>, present: &Vec<bool>) -> (r: Result<Vec<String>, SourceError>)
    requires
        paths.len() == present.len(),
    ensures
        match r {
            Ok(v) => v@.map_values(|s: String| s@) == present_paths(paths@.map_values(|s: String| s@), present@)
                && v.len() > 0,
            Err(_) => present_paths(paths@.map_values(|s: String| s@), present@).len() == 0,
        },
{
    let ghost all = paths@.map_values(|s: String| s@);
    let mut out: Vec<String> = Vec::new();
    let mut i: usize = 0;
    while i < paths.len()
        invariant
            i <= paths.len(),
            paths.len() == present.len(),
            all == paths@.map_values(|s: String| s@),
            out@.map_values(|s: String| s@) == present_paths(all.take(i as int), present@.take(i as int)),
        decreases paths.len() - i,
    {
        proof {
            assert(all.take(i + 1).drop_last() =~= all.take(i as int));
            assert(present@.take(i + 1).drop_last() =~= present@.take(i as int));
            assert(all.take(i + 1).last() == paths@[i as int]@);
        }
        if present[i] {
            out.push(paths[i].clone());
            assert(out@.map_values(|s: String| s@) =~= present_paths(all.take(i as int), present@.take(i as int)).push(paths@[i as int]@));
        }
        i += 1;
    }
    assert(all.take(i as int) =~= all);
    assert(present@.take(i as int) =~= present@);
    if out.len() == 0 {
        Err(SourceError::NothingToBackUp)
    } else {
        Ok(out)
    }
}

} // verus!
