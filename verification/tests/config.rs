use kovre::config::{default_log_level, Agent, BackendKind, Config, ConfigError, Job, Repository};
use kovre::table::Table;

fn repo(path: &str) -> Repository {
    Repository {
        path: path.to_string(),
        backend: BackendKind::Rustic,
        password_file: Some(r"C:\nas.key".to_string()),
        smb_user: None,
        smb_password_file: None,
    }
}

fn job(repository: &str, template: Option<&str>, paths: Option<Vec<&str>>) -> Job {
    Job {
        repository: repository.to_string(),
        template: template.map(|t| t.to_string()),
        template_options: None,
        paths: paths.map(|p| p.into_iter().map(|s| s.to_string()).collect()),
        excludes: None,
        retention: None,
    }
}

fn config(jobs: Vec<(&str, Job)>) -> Config {
    let mut repositories = Table::new();
    repositories.insert("nas".to_string(), repo(r"\\nas\share"));
    let mut table = Table::new();
    for (name, j) in jobs {
        table.insert(name.to_string(), j);
    }
    Config {
        agent: Agent { data_dir: r"C:\ProgramData\Kovre".to_string(), log_level: default_log_level() },
        repositories,
        jobs: table,
    }
}

#[test]
fn defaults_log_level_to_info() {
    assert_eq!(default_log_level(), "info");
    let cfg = config(vec![("docs", job("nas", Some("documents"), None))]);
    assert_eq!(cfg.agent.log_level, "info");
    assert!(cfg.validate().is_ok());
}

#[test]
fn rejects_unknown_repository() {
    let cfg = config(vec![("oops", job("ghost", Some("documents"), None))]);
    let err = cfg.validate().unwrap_err();
    assert!(
        matches!(err, ConfigError::UnknownRepository { ref job, ref repository }
            if job == "oops" && repository == "ghost"),
        "expected UnknownRepository, got {err:?}"
    );
}

#[test]
fn rejects_job_with_neither_template_nor_paths() {
    let cfg = config(vec![("empty", job("nas", None, None))]);
    let err = cfg.validate().unwrap_err();
    assert!(matches!(err, ConfigError::JobMissingSource { ref job } if job == "empty"));
}

#[test]
fn rejects_job_with_template_and_paths() {
    let cfg = config(vec![("mixed", job("nas", Some("documents"), Some(vec![r"C:\foo"])))]);
    let err = cfg.validate().unwrap_err();
    assert!(matches!(err, ConfigError::JobTemplateAndPaths { ref job } if job == "mixed"));
}

#[test]
fn first_broken_job_is_reported() {
    let cfg = config(vec![
        ("ok", job("nas", None, Some(vec![r"D:\a"]))),
        ("bad1", job("nas", None, None)),
        ("bad2", job("ghost", None, None)),
    ]);
    assert!(matches!(cfg.validate().unwrap_err(), ConfigError::JobMissingSource { ref job } if job == "bad1"));
}

#[test]
fn table_keeps_declaration_order_and_replaces_values() {
    let mut t: Table<u32> = Table::new();
    t.insert("b".to_string(), 1);
    t.insert("a".to_string(), 2);
    t.insert("b".to_string(), 3);
    assert_eq!(t.len(), 2);
    assert_eq!(t.key_at(0), "b");
    assert_eq!(t.get("b"), Some(&3));
    assert_eq!(t.remove("b"), Some(3));
    assert!(!t.contains_key("b"));
    assert_eq!(t.get("a"), Some(&2));
}

#[test]
fn backend_defaults_to_rustic() {
    assert_eq!(BackendKind::default(), BackendKind::Rustic);
}
