use kovre::cli::{run_all_outcome, column_widths, format_retention, job_and_repository, render_row, run_targets, separator, short_id, template_label, RunArgs, RunError};
use kovre::config::{Agent, BackendKind, Config, Job, Repository, Retention};
use kovre::table::Table;

fn cfg() -> Config {
    let mut repositories = Table::new();
    repositories.insert(
        "local".to_string(),
        Repository {
            path: r"D:\backup".to_string(),
            backend: BackendKind::Rustic,
            password_file: Some(r"D:\backup.key".to_string()),
            smb_user: None,
            smb_password_file: None,
        },
    );
    let mut jobs = Table::new();
    for (name, repo) in [("docs", "local"), ("games", "ghost")] {
        jobs.insert(
            name.to_string(),
            Job {
                repository: repo.to_string(),
                template: Some("documents".to_string()),
                template_options: None,
                paths: None,
                excludes: None,
                retention: None,
            },
        );
    }
    Config {
        agent: Agent { data_dir: r"C:\ProgramData\Kovre".to_string(), log_level: "info".to_string() },
        repositories,
        jobs,
    }
}

#[test]
fn retention_column() {
    assert_eq!(format_retention(&None), "-");
    assert_eq!(format_retention(&Some(Retention::default())), "-");
    assert_eq!(format_retention(&Some(Retention { keep_versions: Some(3), ..Default::default() })), "-");
    let r = Retention { keep_last: Some(7), keep_weekly: Some(4), keep_yearly: Some(10), ..Default::default() };
    assert_eq!(format_retention(&Some(r)), "last=7,weekly=4,yearly=10");
}

#[test]
fn run_targets_follow_the_arguments() {
    let c = cfg();
    let all = run_targets(&c, &RunArgs { job: None, all: true }).unwrap();
    assert_eq!(all, vec!["docs".to_string(), "games".to_string()]);
    let one = run_targets(&c, &RunArgs { job: Some("docs".to_string()), all: false }).unwrap();
    assert_eq!(one, vec!["docs".to_string()]);
    let err = run_targets(&c, &RunArgs { job: None, all: false }).unwrap_err();
    assert!(matches!(err, RunError::NoTarget));
    assert_eq!(err.message(), "either a job name or --all must be specified");
}

#[test]
fn jobs_need_known_repositories() {
    let c = cfg();
    let (job, repo) = job_and_repository(&c, "docs").unwrap();
    assert_eq!(job.repository, "local");
    assert_eq!(repo.path, r"D:\backup");
    let e = job_and_repository(&c, "games").unwrap_err();
    assert_eq!(e.message(), "job `games` references unknown repository `ghost`");
    let e = job_and_repository(&c, "nope").unwrap_err();
    assert_eq!(e.message(), "unknown job `nope`");
}

#[test]
fn table_rows_are_aligned() {
    let rows = vec![
        vec!["NAME".to_string(), "TEMPLATE".to_string(), "REPOSITORY".to_string(), "RETENTION".to_string()],
        vec!["docs".to_string(), "documents".to_string(), "local".to_string(), "-".to_string()],
    ];
    let w = column_widths(&rows, 4);
    assert_eq!(w, vec![4, 9, 10, 9]);
    assert_eq!(render_row(&rows[0], &w), "NAME  TEMPLATE   REPOSITORY  RETENTION");
    assert_eq!(render_row(&rows[1], &w), "docs  documents  local       -");
    assert_eq!(separator(&w), "-".repeat(4 + 9 + 10 + 9 + 6));
}

#[test]
fn snapshot_ids_are_shortened() {
    assert_eq!(short_id("0123456789abcdef"), "01234567");
    assert_eq!(short_id("abc"), "abc");
}

#[test]
fn custom_jobs_are_labelled() {
    let c = cfg();
    assert_eq!(template_label(c.jobs.get("docs").unwrap()), "documents");
    let j = Job {
        repository: "local".to_string(),
        template: None,
        template_options: None,
        paths: Some(vec![]),
        excludes: None,
        retention: None,
    };
    assert_eq!(template_label(&j), "(custom)");
}

#[test]
fn run_all_reports_the_failed_jobs() {
    assert_eq!(run_all_outcome(&vec![]), Ok(()));
    assert_eq!(run_all_outcome(&vec![false, false]), Ok(()));
    assert_eq!(run_all_outcome(&vec![true, false, true]), Err("2 job(s) failed".to_string()));
    assert_eq!(
        run_all_outcome(&vec![true; 12]),
        Err("12 job(s) failed".to_string())
    );
}
