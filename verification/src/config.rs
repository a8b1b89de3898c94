//! The declarative configuration (`kovre.yaml`): the agent settings, the
//! repositories jobs write to, and the jobs themselves.
//!
//! Reading and parsing the YAML file is the caller's business; this module
//! holds the parsed model and the rules a parsed configuration must obey
//! before anything runs (`Config::validate`).

use vstd::prelude::*;
use crate::table::{Table, first_index_of};

verus! {

broadcast use vstd::string::group_string_axioms;

/// How a repository stores its files.
#[derive(Clone, Copy, Debug, PartialEq, Eq, Structural)]
pub enum BackendKind {
    /// Deduplicated, encrypted, restic-compatible snapshots.
    Rustic,
    /// A browsable copy of the sources plus `.versions/` for replaced files.
    Mirror,
}

impl Default for BackendKind {
    /// A repository without `backend:` uses rustic, the engine of configurations written before backends could be chosen.
    fn default() -> (r: Self)
        ensures
            r == BackendKind::Rustic,
    {
        BackendKind::Rustic
    }
}

/// The level used when `agent.log_level` is not given.
pub fn default_log_level() -> (s: String)
    ensures
        s@ == "info"@,
{
    String::from_str("info")
}

/// `agent:` block.
#[derive(Debug)]
pub struct Agent {
    pub data_dir: String,
    pub log_level: String,
}

/// One `repositories.<name>` entry.
#[derive(Debug)]
pub struct Repository {
    pub path: String,
    pub backend: BackendKind,
    pub password_file: Option<String>,
    pub smb_user: Option<String>,
    pub smb_password_file: Option<String>,
}

/// A copy of an optional string.
pub fn copy_opt_string(s: &Option<String>) -> (r: Option<String>)
    ensures
        r == *s,
{
    match s {
        Some(v) => Some(v.clone()),
        None => None,
    }
}

impl Repository {
    /// A field-for-field copy.
    pub fn duplicate(&self) -> (r: Repository)
        ensures
            r == *self,
    {
        Repository {
            path: self.path.clone(),
            backend: self.backend,
            password_file: copy_opt_string(&self.password_file),
            smb_user: copy_opt_string(&self.smb_user),
            smb_password_file: copy_opt_string(&self.smb_password_file),
        }
    }
}

/// Retention rules of a job. The `keep_*` counts other than
/// `keep_versions` apply to snapshots; `keep_versions` bounds the archived
/// versions kept per file by the mirror backend.
#[derive(Debug, Clone, Copy, PartialEq, Eq, Structural)]
pub struct Retention {
    pub keep_last: Option<u32>,
    pub keep_hourly: Option<u32>,
    pub keep_daily: Option<u32>,
    pub keep_weekly: Option<u32>,
    pub keep_monthly: Option<u32>,
    pub keep_yearly: Option<u32>,
    pub keep_versions: Option<u32>,
}

impl Retention {
    /// No rule at all.
    pub open spec fn none() -> Retention {
        Retention {
            keep_last: None,
            keep_hourly: None,
            keep_daily: None,
            keep_weekly: None,
            keep_monthly: None,
            keep_yearly: None,
            keep_versions: None,
        }
    }
}

impl Default for Retention {
    fn default() -> (r: Self)
        ensures
            r == Retention::none(),
    {
        Retention {
            keep_last: None,
            keep_hourly: None,
            keep_daily: None,
            keep_weekly: None,
            keep_monthly: None,
            keep_yearly: None,
            keep_versions: None,
        }
    }
}

/// One `jobs.<name>` entry. A job names its sources either through a
/// template (with its options, kept as the YAML text of the
/// `template_options:` block) or through explicit `paths`/`excludes`.
#[derive(Debug)]
pub struct Job {
    pub repository: String,
    pub template: Option<String>,
    pub template_options: Option<String>,
    pub paths: Option<Vec<String>>,
    pub excludes: Option<Vec<String>>,
    pub retention: Option<Retention>,
}

/// The whole configuration file.
#[derive(Debug)]
pub struct Config {
    pub agent: Agent,
    pub repositories: Table<Repository>,
    pub jobs: Table<Job>,
}

/// Why a configuration was refused.
#[derive(Debug)]
pub enum ConfigError {
    /// The file could not be read.
    Io { path: String, message: String },
    /// The file is not a well-formed configuration document.
    Parse { path: String, message: String, line: Option<u64>, column: Option<u64> },
    /// A job names a repository the file does not declare.
    UnknownRepository { job: String, repository: String },
    /// A job has neither a template nor explicit paths.
    JobMissingSource { job: String },
    /// A job has a template and also explicit paths or excludes.
    JobTemplateAndPaths { job: String },
}

/// The rule a single job breaks, if any, checked in this order.
pub enum JobProblem {
    UnknownRepository,
    MissingSource,
    TemplateAndPaths,
}

/// The rule `job` breaks given the declared repositories.
pub open spec fn job_problem(job: Job, repositories: Seq<(Seq<char>, Repository)>) -> Option<JobProblem> {
    if first_index_of(repositories, job.repository@) is None {
        Some(JobProblem::UnknownRepository)
    } else if job.template is None && job.paths is None {
        Some(JobProblem::MissingSource)
    } else if job.template is Some && (job.paths is Some || job.excludes is Some) {
        Some(JobProblem::TemplateAndPaths)
    } else {
        None
    }
}

/// The first job, in declaration order, that breaks a rule.
pub open spec fn first_problem(
    jobs: Seq<(Seq<char>, Job)>,
    repositories: Seq<(Seq<char>, Repository)>,
) -> Option<(int, JobProblem)>
    decreases jobs.len(),
{
    if jobs.len() == 0 {
        None
    } else {
        match first_problem(jobs.drop_last(), repositories) {
            Some(p) => Some(p),
            None => match job_problem(jobs.last().1, repositories) {
                Some(p) => Some((jobs.len() - 1, p)),
                None => None,
            },
        }
    }
}

/// `first_problem` is `None` exactly when every job obeys the rules, and
/// otherwise points at the first job that does not.
pub proof fn lemma_first_problem(
    jobs: Seq<(Seq<char>, Job)>,
    repositories: Seq<(Seq<char>, Repository)>,
)
    ensures
        match first_problem(jobs, repositories) {
            Some((i, p)) => 0 <= i < jobs.len() && job_problem(jobs[i].1, repositories) == Some(p)
                && forall|k: int| 0 <= k < i ==> job_problem(#[trigger] jobs[k].1, repositories) is None,
            None => forall|k: int| 0 <= k < jobs.len() ==> job_problem(#[trigger] jobs[k].1, repositories) is None,
        },
    decreases jobs.len(),
{
    if jobs.len() > 0 {
        lemma_first_problem(jobs.drop_last(), repositories);
        assert forall|k: int| 0 <= k < jobs.len() - 1 implies jobs[k] == jobs.drop_last()[k] by {}
    }
}

impl ConfigError {
    /// This error reports `problem` for the job named `name` whose
    /// repository field is `repository`.
    pub open spec fn reports(self, name: Seq<char>, job: Job, problem: JobProblem) -> bool {
        match (self, problem) {
            (ConfigError::UnknownRepository { job: j, repository }, JobProblem::UnknownRepository) =>
                j@ == name && repository@ == job.repository@,
            (ConfigError::JobMissingSource { job: j }, JobProblem::MissingSource) => j@ == name,
            (ConfigError::JobTemplateAndPaths { job: j }, JobProblem::TemplateAndPaths) => j@ == name,
            _ => false,
        }
    }
}

impl Config {
    /// Every job obeys the rules `validate` enforces.
    pub open spec fn valid(&self) -> bool {
        first_problem(self.jobs@, self.repositories@) is None
    }

    /// Check the cross-references of a parsed configuration: every job
    /// names a declared repository, and has either a template or explicit
    /// paths, but not a template together with explicit paths or
    /// excludes. Jobs are checked in declaration order and the first
    /// violation is reported.
    pub fn validate(&self) -> (r: Result<(), ConfigError>)
        ensures
            r is Ok <==> self.valid(),
            r matches Err(e) ==> ({
                let (i, p) = first_problem(self.jobs@, self.repositories@)->0;
                e.reports(self.jobs@[i].0, self.jobs@[i].1, p)
            }),
    {
        let mut i: usize = 0;
        while i < self.jobs.len()
            invariant
                i <= self.jobs@.len(),
                first_problem(self.jobs@.take(i as int), self.repositories@) is None,
            decreases self.jobs@.len() - i,
        {
            let name = self.jobs.key_at(i);
            let job = self.jobs.value_at(i);
            proof {
                assert(self.jobs@.take(i + 1).drop_last() =~= self.jobs@.take(i as int));
                assert(self.jobs@.take(i + 1).last() == self.jobs@[i as int]);
            }
            if !self.repositories.contains_key(job.repository.as_str()) {
                proof {
                    lemma_first_problem_prefix(self.jobs@, self.repositories@, i as int);
                }
                return Err(ConfigError::UnknownRepository {
                    job: name.clone(),
                    repository: job.repository.clone(),
                });
            }
            let has_template = job.template.is_some();
            let has_explicit_paths = job.paths.is_some();
            let has_explicit_excludes = job.excludes.is_some();
            if !has_template && !has_explicit_paths {
                proof {
                    lemma_first_problem_prefix(self.jobs@, self.repositories@, i as int);
                }
                return Err(ConfigError::JobMissingSource { job: name.clone() });
            }
            if has_template && (has_explicit_paths || has_explicit_excludes) {
                proof {
                    lemma_first_problem_prefix(self.jobs@, self.repositories@, i as int);
                }
                return Err(ConfigError::JobTemplateAndPaths { job: name.clone() });
            }
            i += 1;
        }
        assert(self.jobs@.take(self.jobs@.len() as int) =~= self.jobs@);
        Ok(())
    }
}

/// When the jobs before `i` obey the rules and job `i` does not, job `i`
/// is the first problem of the whole list.
pub proof fn lemma_first_problem_prefix(
    jobs: Seq<(Seq<char>, Job)>,
    repositories: Seq<(Seq<char>, Repository)>,
    i: int,
)
    requires
        0 <= i < jobs.len(),
        first_problem(jobs.take(i), repositories) is None,
        job_problem(jobs[i].1, repositories) is Some,
    ensures
        first_problem(jobs, repositories) == Some((i, job_problem(jobs[i].1, repositories)->0)),
{
    lemma_first_problem(jobs.take(i), repositories);
    lemma_first_problem(jobs, repositories);
    assert forall|k: int| 0 <= k < i implies job_problem(#[trigger] jobs[k].1, repositories) is None by {
        assert(jobs.take(i)[k] == jobs[k]);
    }
    match first_problem(jobs, repositories) {
        Some((j, p)) => {
            if j > i {
            } else if j < i {
            }
        },
        None => {},
    }
}

/// The rules of a configuration, job by job: a job is accepted exactly
/// when it names a declared repository, has a template or explicit
/// paths, and does not combine a template with explicit paths or
/// explicit excludes. The first job (in declaration order) that is not
/// accepted is the one reported, for the first rule it breaks in that
/// order; when every job is accepted nothing is reported.
pub proof fn lemma_job_rules(
    jobs: Seq<(Seq<char>, Job)>,
    repositories: Seq<(Seq<char>, Repository)>,
)
    ensures
        (forall|k: int|
            0 <= k < jobs.len() ==> first_index_of(repositories, (#[trigger] jobs[k]).1.repository@) is Some
                && (jobs[k].1.template is Some || jobs[k].1.paths is Some) && !(jobs[k].1.template is Some
                && (jobs[k].1.paths is Some || jobs[k].1.excludes is Some))) <==> first_problem(
            jobs,
            repositories,
        ) is None,
        first_problem(jobs, repositories) matches Some((i, p)) ==> 0 <= i < jobs.len() && (forall|k: int|
            0 <= k < i ==> first_index_of(repositories, (#[trigger] jobs[k]).1.repository@) is Some
                && (jobs[k].1.template is Some || jobs[k].1.paths is Some) && !(jobs[k].1.template is Some
                && (jobs[k].1.paths is Some || jobs[k].1.excludes is Some))) && (if first_index_of(
            repositories,
            jobs[i].1.repository@,
        ) is None {
            p is UnknownRepository
        } else if jobs[i].1.template is None && jobs[i].1.paths is None {
            p is MissingSource
        } else {
            p is TemplateAndPaths && jobs[i].1.template is Some && (jobs[i].1.paths is Some
                || jobs[i].1.excludes is Some)
        }),
{
    lemma_first_problem(jobs, repositories);
}

/// A job that names a declared repository and has a template together
/// with explicit excludes (with or without explicit paths) is refused as
/// combining a template with explicit sources, once the jobs before it
/// are accepted.
pub proof fn lemma_template_with_excludes_is_refused(
    jobs: Seq<(Seq<char>, Job)>,
    repositories: Seq<(Seq<char>, Repository)>,
    i: int,
)
    requires
        0 <= i < jobs.len(),
        first_index_of(repositories, jobs[i].1.repository@) is Some,
        jobs[i].1.template is Some,
        jobs[i].1.excludes is Some,
        forall|k: int|
            0 <= k < i ==> first_index_of(repositories, (#[trigger] jobs[k]).1.repository@) is Some
                && (jobs[k].1.template is Some || jobs[k].1.paths is Some) && !(jobs[k].1.template is Some
                && (jobs[k].1.paths is Some || jobs[k].1.excludes is Some)),
    ensures
        first_problem(jobs, repositories) == Some((i, JobProblem::TemplateAndPaths)),
{
    lemma_first_problem(jobs, repositories);
    assert(first_problem(jobs.take(i), repositories) is None) by {
        lemma_first_problem(jobs.take(i), repositories);
        if first_problem(jobs.take(i), repositories) is Some {
            let (j, p) = first_problem(jobs.take(i), repositories)->0;
            assert(jobs.take(i)[j] == jobs[j]);
        }
    }
    lemma_first_problem_prefix(jobs, repositories, i);
}

} // verus!
