use kovre::backup::SnapshotInfo;
use kovre::config::{Agent, BackendKind, Config, Job, Repository};
use kovre::serve::models::{snapshot_from_info, JobRun, RestoreRun};
use kovre::serve::restore::{
    check_new_restore, mark_restore_failure, mark_restore_success, new_restore_run, validate_dest_dir,
    RestoreError,
};
use kovre::serve::routes::{
    cache_control, is_api_path,
    extract_job_name, extract_repo_name_for_init, extract_repo_name_for_verify, hex_lower,
    is_already_initialized, new_passphrase, requested_fs_path, requested_key_path, PathRequestError,
};
use kovre::serve::runs::{check_new_run, mark_failure, mark_success, new_run, TriggerError};
use kovre::serve::smb::{connection_result, share_target, smb_step, unc_share_root, SmbError, SmbStep};
use kovre::table::Table;

fn cfg_with(job_names: &[&str]) -> Config {
    let mut repositories = Table::new();
    repositories.insert(
        "nas".to_string(),
        Repository {
            path: r"\\nas\backup".to_string(),
            backend: BackendKind::Mirror,
            password_file: None,
            smb_user: None,
            smb_password_file: None,
        },
    );
    let mut jobs = Table::new();
    for n in job_names {
        jobs.insert(
            n.to_string(),
            Job {
                repository: "nas".to_string(),
                template: None,
                template_options: None,
                paths: Some(vec![r"D:\src".to_string()]),
                excludes: None,
                retention: None,
            },
        );
    }
    Config {
        agent: Agent { data_dir: r"C:\ProgramData\Kovre".to_string(), log_level: "info".to_string() },
        repositories,
        jobs,
    }
}

fn fs_query(path: &str) -> String {
    let mut encoded = String::new();
    for byte in path.bytes() {
        match byte {
            b'A'..=b'Z' | b'a'..=b'z' | b'0'..=b'9' | b'-' | b'_' | b'.' | b'~' | b'/' => {
                encoded.push(byte as char);
            }
            other => encoded.push_str(&format!("%{other:02X}")),
        }
    }
    format!("path={encoded}")
}

#[test]
fn extract_job_name_handles_simple_name() {
    assert_eq!(extract_job_name("/api/jobs/documents/run"), Some("documents".into()));
}

#[test]
fn extract_job_name_handles_percent_encoded_name() {
    assert_eq!(extract_job_name("/api/jobs/my%20job/run"), Some("my job".into()));
}

#[test]
fn extract_job_name_rejects_wrong_suffix() {
    assert!(extract_job_name("/api/jobs/documents/list").is_none());
}

#[test]
fn extract_job_name_rejects_missing_name() {
    assert!(extract_job_name("/api/jobs//run").is_none());
}

#[test]
fn extract_job_name_rejects_unrelated_path() {
    assert!(extract_job_name("/health").is_none());
}

#[test]
fn extract_repo_name_for_init_handles_simple_name() {
    assert_eq!(extract_repo_name_for_init("/api/repositories/nas/init"), Some("nas".into()));
}

#[test]
fn extract_repo_name_for_init_handles_percent_encoded() {
    assert_eq!(
        extract_repo_name_for_init("/api/repositories/local%20drive/init"),
        Some("local drive".into())
    );
}

#[test]
fn extract_repo_name_for_init_rejects_wrong_suffix() {
    assert!(extract_repo_name_for_init("/api/repositories/nas/list").is_none());
}

#[test]
fn extract_repo_name_for_verify_needs_verify_suffix() {
    assert_eq!(extract_repo_name_for_verify("/api/repositories/a+b/verify"), Some("a b".into()));
    assert!(extract_repo_name_for_verify("/api/repositories/nas/verify/x").is_none());
}

#[test]
fn list_fs_data_rejects_missing_path() {
    assert!(matches!(requested_fs_path(""), Err(PathRequestError::MissingPath)));
    assert!(matches!(requested_fs_path("path="), Err(PathRequestError::MissingPath)));
    assert!(matches!(requested_fs_path("other=1"), Err(PathRequestError::MissingPath)));
}

#[test]
fn list_fs_data_rejects_path_traversal() {
    let err = requested_fs_path(&fs_query("C:\\Users\\..\\Windows")).unwrap_err();
    assert_eq!(err.code(), "path_traversal");
}

#[test]
fn fs_stat_rejects_path_traversal() {
    assert!(requested_fs_path(&fs_query("C:\\Users\\..\\Windows")).is_err());
}

#[test]
fn fs_path_is_decoded() {
    assert_eq!(requested_fs_path(&fs_query("C:\\Users\\me")).unwrap(), "C:\\Users\\me");
    assert_eq!(requested_fs_path("x=1&path=%2Fetc&path=/other").unwrap(), "/etc");
}

#[test]
fn init_password_rejects_path_traversal() {
    assert!(matches!(
        requested_key_path("C:\\Users\\..\\Windows\\key.txt"),
        Err(PathRequestError::PathTraversal { .. })
    ));
    assert!(matches!(requested_key_path(""), Err(PathRequestError::MissingPath)));
    assert_eq!(requested_key_path(r"C:\k\nas.key").unwrap(), r"C:\k\nas.key");
}

#[test]
fn init_password_writes_64_hex_chars() {
    let p = new_passphrase().unwrap();
    assert_eq!(p.len(), 64);
    assert!(p.chars().all(|c| c.is_ascii_hexdigit() && !c.is_ascii_uppercase()));
    assert_eq!(hex_lower(&[0x00, 0x0f, 0xa5, 0xff]), "000fa5ff");
}

#[test]
fn already_initialized_messages_are_recognised() {
    assert!(is_already_initialized("Error: Config file ALREADY exists"));
    assert!(is_already_initialized("repository already initialized"));
    assert!(!is_already_initialized("permission denied"));
}

#[test]
fn validate_dest_accepts_a_plain_path() {
    let s = validate_dest_dir(r"C:\Users\me\kovre-restore\j\2026-05-20").unwrap();
    assert!(s.contains("kovre-restore"));
}

#[test]
fn validate_dest_rejects_empty_input() {
    let err = validate_dest_dir("   ").unwrap_err();
    match err {
        RestoreError::InvalidDest { reason } => assert!(reason.contains("empty")),
        _ => panic!("wrong error variant: {err:?}"),
    }
}

#[test]
fn validate_dest_rejects_path_traversal() {
    let err = validate_dest_dir(r"C:\Users\..\Windows").unwrap_err();
    match err {
        RestoreError::InvalidDest { reason } => assert!(reason.contains("path traversal")),
        _ => panic!("wrong error variant: {err:?}"),
    }
}

#[test]
fn validate_dest_rejects_forward_slash_traversal() {
    let err = validate_dest_dir("/home/me/../etc/passwd").unwrap_err();
    assert!(matches!(err, RestoreError::InvalidDest { .. }));
}

#[test]
fn validate_dest_trims() {
    assert_eq!(validate_dest_dir("  D:\\out  ").unwrap(), "D:\\out");
    assert!(validate_dest_dir(r"D:\a..b").is_ok());
}

#[test]
fn extracts_share_root_from_unc() {
    assert_eq!(
        unc_share_root(r"\\diskstation\disque\kovre\photos"),
        Some(r"\\diskstation\disque".to_string())
    );
}

#[test]
fn extracts_share_root_minimal() {
    assert_eq!(unc_share_root(r"\\nas\share"), Some(r"\\nas\share".to_string()));
}

#[test]
fn refuses_non_unc_paths() {
    assert_eq!(unc_share_root(r"C:\backup\kovre"), None);
    assert_eq!(unc_share_root("/home/me/backup"), None);
    assert_eq!(unc_share_root(r"\notunc"), None);
}

#[test]
fn refuses_unc_missing_share() {
    assert_eq!(unc_share_root(r"\\diskstation"), None);
    assert_eq!(unc_share_root(r"\\diskstation\"), None);
}

#[test]
fn smb_setup_decisions() {
    let mut r = Repository {
        path: r"\\nas\share\kovre".to_string(),
        backend: BackendKind::Mirror,
        password_file: None,
        smb_user: None,
        smb_password_file: None,
    };
    assert!(matches!(smb_step(&r), SmbStep::Skip));
    r.smb_user = Some("me".to_string());
    assert!(matches!(smb_step(&r), SmbStep::MissingPasswordFile));
    r.smb_password_file = Some(r"C:\k.bin".to_string());
    match smb_step(&r) {
        SmbStep::Connect { user, password_file } => {
            assert_eq!(user, "me");
            assert_eq!(password_file, r"C:\k.bin");
        }
        other => panic!("unexpected {other:?}"),
    }
    assert_eq!(share_target(&r.path).unwrap(), r"\\nas\share");
    assert_eq!(share_target(r"C:\x").unwrap_err(), SmbError::NotUnc);
    assert!(connection_result(0).is_ok());
    assert!(connection_result(1219).is_ok());
    assert_eq!(connection_result(86).unwrap_err(), SmbError::ConnectFailed { code: 86 });
}

fn run(id: &str, job: &str, status: &str) -> JobRun {
    let mut r = new_run(id.to_string(), job, "2026-05-05T12:00:00Z".to_string(), "dashboard");
    r.status = status.to_string();
    r
}

#[test]
fn register_run_rejects_unknown_job() {
    let cfg = cfg_with(&["documents"]);
    let err = check_new_run(&cfg, "ghost", &vec![]).unwrap_err();
    assert!(matches!(err, TriggerError::UnknownJob { ref job } if job == "ghost"));
    assert_eq!(err.http_status(), 404);
    assert_eq!(err.message(), "unknown job `ghost`");
}

#[test]
fn register_run_inserts_a_running_run() {
    let cfg = cfg_with(&["documents"]);
    assert!(check_new_run(&cfg, "documents", &vec![]).is_ok());
    let r = new_run("id-1".to_string(), "documents", "t0".to_string(), "dashboard");
    assert_eq!(r.job_name, "documents");
    assert_eq!(r.status, "running");
    assert_eq!(r.trigger, "dashboard");
    assert!(r.finished_at.is_none());
    assert!(r.snapshot_id.is_none());
}

#[test]
fn register_run_rejects_concurrent_run_for_same_job() {
    let cfg = cfg_with(&["documents", "photos"]);
    let runs = vec![run("a", "photos", "running"), run("b", "documents", "running")];
    match check_new_run(&cfg, "documents", &runs).unwrap_err() {
        TriggerError::AlreadyRunning { run_id } => assert_eq!(run_id, "b"),
        other => panic!("unexpected {other:?}"),
    }
}

#[test]
fn register_run_allows_new_run_after_previous_completed() {
    let cfg = cfg_with(&["documents"]);
    let first = run("a", "documents", "running");
    let done = mark_failure(first, "disk full", "t1".to_string());
    assert!(check_new_run(&cfg, "documents", &vec![done]).is_ok());
}

#[test]
fn mark_success_records_snapshot_metadata() {
    let snap = SnapshotInfo {
        id: "abcdef1234".to_string(),
        time: "2026-05-05T12:01:00Z".to_string(),
        epoch_nanos: 1_777_982_460_000_000_000,
        paths: vec![r"C:\docs".to_string()],
        hostname: "pc".to_string(),
        tags: vec!["kovre-job:documents".to_string()],
        total_bytes_processed: Some(123_456),
        data_added: Some(8_192),
    };
    let updated = mark_success(run("a", "documents", "running"), &snap, "t1".to_string());
    assert_eq!(updated.status, "success");
    assert_eq!(updated.snapshot_id.as_deref(), Some("abcdef1234"));
    assert_eq!(updated.bytes_processed, Some(123_456));
    assert_eq!(updated.bytes_added, Some(8_192));
    assert!(updated.finished_at.is_some());
    let s = snapshot_from_info("documents", snap);
    assert_eq!(s.id, "abcdef1234");
    assert_eq!(s.job_name, "documents");
    assert_eq!(s.bytes_total, Some(123_456));
}

#[test]
fn mark_failure_records_reason() {
    let updated = mark_failure(run("a", "documents", "running"), "disk full", "t1".to_string());
    assert_eq!(updated.status, "failed");
    assert_eq!(updated.failure_reason.as_deref(), Some("disk full"));
    assert!(updated.finished_at.is_some());
}

fn restore(id: &str, job: &str, dest: &str) -> RestoreRun {
    new_restore_run(id.to_string(), job, dest.to_string(), "t0".to_string(), "dashboard")
}

#[test]
fn restores_are_one_per_job_and_destination() {
    let cfg = cfg_with(&["files"]);
    assert!(matches!(
        check_new_restore(&cfg, "ghost", r"C:\restore", &vec![]),
        Err(RestoreError::UnknownJob { .. })
    ));
    assert!(matches!(
        check_new_restore(&cfg, "files", "  ", &vec![]),
        Err(RestoreError::InvalidDest { .. })
    ));
    let runs = vec![restore("r1", "files", r"C:\restore")];
    match check_new_restore(&cfg, "files", r"  C:\restore ", &runs) {
        Err(RestoreError::AlreadyRunning { run_id }) => assert_eq!(run_id, "r1"),
        other => panic!("unexpected {other:?}"),
    }
    assert_eq!(check_new_restore(&cfg, "files", r"C:\other", &runs).unwrap(), r"C:\other");
    let done = mark_restore_success(restore("r1", "files", r"C:\restore"), "t1".to_string());
    assert_eq!(done.status, "success");
    assert!(check_new_restore(&cfg, "files", r"C:\restore", &vec![done]).is_ok());
    let failed = mark_restore_failure(restore("r2", "files", "D:\\x"), "boom", "t2".to_string());
    assert_eq!(failed.failure_reason.as_deref(), Some("boom"));
    let e = RestoreError::InvalidDest { reason: "dest_dir is empty".to_string() };
    assert_eq!(e.message(), "invalid dest_dir: dest_dir is empty");
}

#[test]
fn unknown_api_paths_get_json_not_found() {
    assert!(is_api_path("/api/nothing"));
    assert!(is_api_path("/health"));
    assert!(!is_api_path("/jobs/documents"));
    assert!(!is_api_path("/apix"));
}

#[test]
fn immutable_assets_are_cached_for_a_year() {
    assert_eq!(cache_control("_app/immutable/chunk.js"), "public, max-age=31536000, immutable");
    assert_eq!(cache_control("index.html"), "public, max-age=300");
}

#[test]
fn trigger_error_texts_and_statuses() {
    let e = TriggerError::AlreadyRunning { run_id: "r1".to_string() };
    assert_eq!(e.message(), "a run is already in progress (id = r1)");
    assert_eq!(e.code(), "already_running");
    assert_eq!(e.http_status(), 409);
    let p = TriggerError::Persistence { reason: "disk".to_string() };
    assert_eq!(p.message(), "persistence error: disk");
    assert_eq!(p.http_status(), 500);
    let r = RestoreError::AlreadyRunning { run_id: "x".to_string() };
    assert_eq!(r.message(), "a restore is already in progress (id = x)");
    assert_eq!(RestoreError::Persistence { reason: "y".to_string() }.message(), "persistence error: y");
    assert_eq!(RestoreError::UnknownJob { job: "j".to_string() }.message(), "unknown job `j`");
}

#[test]
fn accepted_destinations_and_share_roots_are_fixed_points() {
    let d = validate_dest_dir("  C:\\restore\\x \n").unwrap();
    assert_eq!(d, r"C:\restore\x");
    assert_eq!(validate_dest_dir(&d).unwrap(), d);
    let root = unc_share_root(r"\\nas\backups\kovre\repo").unwrap();
    assert_eq!(root, r"\\nas\backups");
    assert_eq!(unc_share_root(&root), Some(root.clone()));
}
