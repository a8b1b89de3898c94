use kovre::backup::content::{content_digest, first_matching_digest};
use kovre::backup::excludes::ExcludeSet;
use kovre::backup::mirror::{
    archive_candidate, count_versions_of, files_match, is_restorable, plan_source_file,
    prune_plan, retention_outcome, source_entry_action, to_forward_slashes, versions_to_keep, EntryAction,
    FilePlan, FileStamp, Inventory, MirrorEngine, VersionFile,
};
use kovre::backup::naming::{looks_like_timestamp, parse_versioned_name, versioned_basename};
use kovre::backup::rustic::{any_rule_set, negate_excludes, newest_tagged, passphrase_from, PasswordError, RusticEngine};
use kovre::backup::SnapshotInfo;
use kovre::backup::times::modified_label;
use kovre::backup::mirror::{dest_dir_name, resolve_subpath, MirrorError};
use kovre::backup::{engine_for, existing_sources, job_tag, Engine, SourceError};
use kovre::table::Table;
use kovre::config::{BackendKind, Repository, Retention};

fn repo(path: &str, backend: BackendKind, password_file: Option<&str>) -> Repository {
    Repository {
        path: path.to_string(),
        backend,
        password_file: password_file.map(|s| s.to_string()),
        smb_user: None,
        smb_password_file: None,
    }
}

#[test]
fn backup_any_rule_set_detects_at_least_one_field() {
    assert!(!any_rule_set(&Retention::default()));
    assert!(any_rule_set(&Retention { keep_last: Some(1), ..Default::default() }));
    assert!(any_rule_set(&Retention { keep_yearly: Some(1), ..Default::default() }));
}

#[test]
fn rustic_any_rule_set_detects_at_least_one_field() {
    assert!(!any_rule_set(&Retention::default()));
    assert!(any_rule_set(&Retention { keep_last: Some(1), ..Default::default() }));
    assert!(any_rule_set(&Retention { keep_yearly: Some(1), ..Default::default() }));
}

#[test]
fn keep_versions_alone_is_not_a_snapshot_rule() {
    assert!(!any_rule_set(&Retention { keep_versions: Some(3), ..Default::default() }));
}

#[test]
fn engine_for_returns_rustic_engine_by_default() {
    let r = repo(r"C:\nope", BackendKind::Rustic, Some(r"C:\nope.key"));
    let engine = engine_for(&r);
    assert!(matches!(engine, Engine::Rustic(_)));
}

#[test]
fn engine_for_mirror_backend_is_mirror() {
    let r = repo(r"\\nas\backup", BackendKind::Mirror, None);
    assert!(matches!(engine_for(&r), Engine::Mirror(_)));
}

#[test]
fn rustic_engine_reports_missing_password_file() {
    let engine = RusticEngine::new(repo(r"C:\nope", BackendKind::Rustic, None));
    let err = engine.password_file().unwrap_err();
    assert_eq!(err, PasswordError::MissingFile);
    assert!(err.message("").contains("password_file"));
}

#[test]
fn password_file_is_taken_from_the_repository() {
    let engine = RusticEngine::new(repo(r"C:\nope", BackendKind::Rustic, Some(r"C:\nope.key")));
    assert_eq!(engine.password_file().unwrap(), r"C:\nope.key");
}

#[test]
fn passphrase_is_first_line_without_trailing_space() {
    assert_eq!(passphrase_from("secret  \r\nsecond line\n").unwrap(), "secret");
    assert_eq!(passphrase_from("  lead\n").unwrap(), "  lead");
    assert_eq!(passphrase_from("   \nx").unwrap_err(), PasswordError::Empty);
    assert_eq!(PasswordError::Empty.message("k.key"), "password file `k.key` is empty");
}

#[test]
fn versioned_basename_injects_timestamp_before_ext() {
    assert_eq!(versioned_basename("famille.jpg", "2026-05-14-120000"), "famille-2026-05-14-120000.jpg");
    assert_eq!(versioned_basename("README", "2026-05-14-120000"), "README-2026-05-14-120000");
    assert_eq!(versioned_basename(".gitkeep", "2026-05-14-120000"), ".gitkeep-2026-05-14-120000");
    assert_eq!(
        versioned_basename("archive.tar.gz", "2026-05-14-120000"),
        "archive.tar-2026-05-14-120000.gz"
    );
}

#[test]
fn parse_versioned_name_roundtrips() {
    assert_eq!(
        parse_versioned_name("famille-2026-05-14-120000.jpg"),
        Some(("famille.jpg".to_string(), "2026-05-14-120000".to_string()))
    );
    assert_eq!(
        parse_versioned_name("README-2026-05-14-120000"),
        Some(("README".to_string(), "2026-05-14-120000".to_string()))
    );
    assert_eq!(parse_versioned_name("famille.jpg"), None);
    assert_eq!(parse_versioned_name("short.txt"), None);
    assert_eq!(parse_versioned_name("no_dash_before20260101120000.txt"), None);
}

#[test]
fn versioned_name_round_trip_on_several_names() {
    for name in ["photo.jpeg", "notes", "a.b.c", "x.tar.gz"] {
        let v = versioned_basename(name, "2025-01-02-030405");
        assert_eq!(parse_versioned_name(&v), Some((name.to_string(), "2025-01-02-030405".to_string())));
    }
}

#[test]
fn timestamp_shape() {
    assert!(looks_like_timestamp("2026-05-14-120000"));
    assert!(!looks_like_timestamp("2026-05-14-12000"));
    assert!(!looks_like_timestamp("2026_05-14-120000"));
    assert!(!looks_like_timestamp("2026-05-14-12a000"));
}

#[test]
fn job_tag_prefixes_the_job_name() {
    assert_eq!(job_tag("documents"), "kovre-job:documents");
}

#[test]
fn excludes_are_negated_for_rustic() {
    let r = negate_excludes(&vec!["**/*.tmp".to_string(), "!keep".to_string()]);
    assert_eq!(r, vec!["!**/*.tmp".to_string(), "!keep".to_string()]);
}

#[test]
fn mirror_roots_under_the_repository() {
    let e = MirrorEngine::new(repo(r"D:\mirror", BackendKind::Mirror, None));
    assert_eq!(e.job_root("photos"), r"D:\mirror\photos");
    assert_eq!(e.versions_root("photos"), r"D:\mirror\photos\.versions");
    let v = e.verify();
    assert!(v.ok);
    assert!(e.list_snapshots("photos").is_empty());
}

#[test]
fn keep_versions_controls_mirror_retention() {
    assert_eq!(versions_to_keep(&Retention::default()), None);
    assert_eq!(versions_to_keep(&Retention { keep_versions: Some(2), ..Default::default() }), Some(2));
}

#[test]
fn entries_under_versions_are_skipped() {
    assert_eq!(source_entry_action(r"a\.versions\b.txt", false, false, true), EntryAction::Skip);
    assert_eq!(source_entry_action(r"a\b.txt", true, false, true), EntryAction::Skip);
    assert_eq!(source_entry_action(r"a\b", false, true, false), EntryAction::MakeDir);
    assert_eq!(source_entry_action(r"a\b.txt", false, false, true), EntryAction::SyncFile);
    assert_eq!(source_entry_action(r"a\link", false, false, false), EntryAction::Skip);
    assert!(!is_restorable(r".versions\a.txt"));
    assert!(is_restorable(r"docs\a.txt"));
    assert_eq!(to_forward_slashes(r"a\b\c.txt"), "a/b/c.txt");
}

#[test]
fn stamps_match_on_size_and_second() {
    let a = FileStamp { size: 10, mtime_secs: Some(100) };
    assert!(files_match(a, FileStamp { size: 10, mtime_secs: Some(100) }));
    assert!(!files_match(a, FileStamp { size: 11, mtime_secs: Some(100) }));
    assert!(!files_match(a, FileStamp { size: 10, mtime_secs: Some(101) }));
    assert!(!files_match(a, FileStamp { size: 10, mtime_secs: None }));
}

#[test]
fn plan_replaces_changed_file_and_lists_rename_candidates() {
    let mut inv = Inventory::new();
    inv.insert("a.txt".to_string(), FileStamp { size: 5, mtime_secs: Some(1) });
    inv.insert("old.txt".to_string(), FileStamp { size: 7, mtime_secs: Some(2) });
    match plan_source_file(&mut inv, "a.txt", FileStamp { size: 6, mtime_secs: Some(1) }) {
        FilePlan::Replace => {}
        other => panic!("expected Replace, got {other:?}"),
    }
    assert_eq!(inv.len(), 1);
    match plan_source_file(&mut inv, "new.txt", FileStamp { size: 7, mtime_secs: Some(9) }) {
        FilePlan::Fresh { candidates } => assert_eq!(candidates, vec!["old.txt".to_string()]),
        other => panic!("expected Fresh, got {other:?}"),
    }
}

#[test]
fn archive_names_count_up_on_collision() {
    assert_eq!(archive_candidate("a-2026-01-01-000000.txt", 0), "a-2026-01-01-000000.txt");
    assert_eq!(archive_candidate("a-2026-01-01-000000.txt", 3), "a-2026-01-01-000000.txt.3");
}

#[test]
fn counts_versions_of_a_file() {
    let names = vec![
        "a-2026-01-01-000000.txt".to_string(),
        "a-2026-02-01-000000.txt".to_string(),
        "b-2026-01-01-000000.txt".to_string(),
        "a.txt".to_string(),
    ];
    assert_eq!(count_versions_of(&names, "a.txt"), 2);
    assert_eq!(count_versions_of(&names, "b.txt"), 1);
}

#[test]
fn retention_prunes_all_but_newest_versions() {
    let f = |n: &str| VersionFile { parent: "d".to_string(), name: n.to_string() };
    let files = vec![
        f("a-2026-01-01-000000.txt"),
        f("a-2026-03-01-000000.txt"),
        f("a-2026-02-01-000000.txt"),
        f("b-2026-01-01-000000.txt"),
    ];
    assert_eq!(prune_plan(&files, 1), vec![true, false, true, false]);
    assert_eq!(prune_plan(&files, 2), vec![true, false, false, false]);
    assert_eq!(prune_plan(&files, 0), vec![true, true, true, true]);
}

#[test]
fn exclude_globs_match_forward_slashed_paths() {
    let set = ExcludeSet::build(&vec!["**/*.tmp".to_string(), "cache/**".to_string()]).unwrap();
    assert!(set.is_excluded(r"dir\x.tmp"));
    assert!(set.is_excluded(r"cache\a\b"));
    assert!(!set.is_excluded(r"dir\x.txt"));
    assert_eq!(set.entry_action(r"dir\x.tmp", false, true), EntryAction::Skip);
    assert_eq!(set.entry_action(r"dir\x.txt", false, true), EntryAction::SyncFile);
}

#[test]
fn invalid_exclude_glob_is_reported() {
    let err = ExcludeSet::build(&vec!["ok/**".to_string(), "a[".to_string()]).unwrap_err();
    match err {
        kovre::backup::excludes::ExcludeError::BadPattern { pattern, .. } => assert_eq!(pattern, "a["),
        other => panic!("unexpected {other:?}"),
    }
}

#[test]
fn digests_find_the_renamed_copy() {
    let src = content_digest(b"hello world");
    assert_eq!(
        src.to_vec(),
        vec![
            0xb9, 0x4d, 0x27, 0xb9, 0x93, 0x4d, 0x3e, 0x08, 0xa5, 0x2e, 0x52, 0xd7, 0xda, 0x7d, 0xab, 0xfa,
            0xc4, 0x84, 0xef, 0xe3, 0x7a, 0x53, 0x80, 0xee, 0x90, 0x88, 0xf7, 0xac, 0xe2, 0xef, 0xcd, 0xe9
        ]
    );
    let others = vec![content_digest(b"hello"), content_digest(b"hello world"), src];
    assert_eq!(first_matching_digest(&src, &others), Some(1));
    assert_eq!(first_matching_digest(&src, &vec![content_digest(b"x")]), None);
}

#[test]
fn modification_labels_are_rfc3339() {
    assert_eq!(modified_label(Some(1)).as_deref(), Some("1970-01-01T00:00:01Z"));
    assert_eq!(modified_label(Some(1_700_000_000)).as_deref(), Some("2023-11-14T22:13:20Z"));
    assert_eq!(modified_label(None), None);
    assert_eq!(modified_label(Some(253_402_207_201)), None);
}

#[test]
fn mirror_directory_names_and_subpaths() {
    let mut labels: Table<String> = Table::new();
    labels.insert(r"D:\Games\Hades\Saves".to_string(), "Hades".to_string());
    assert_eq!(dest_dir_name(r"D:\Games\Hades\Saves", &labels).unwrap(), "Hades");
    assert_eq!(dest_dir_name(r"D:\Pictures", &labels).unwrap(), "Pictures");
    assert_eq!(dest_dir_name(r"D:\Pictures\", &labels).unwrap(), "Pictures");
    assert_eq!(dest_dir_name(r"\", &labels).unwrap_err(), MirrorError::NoBasename);
    assert_eq!(resolve_subpath(r"D:\m\job", "").unwrap(), r"D:\m\job");
    assert_eq!(resolve_subpath(r"D:\m\job", "a/b").unwrap(), r"D:\m\job\a\b");
    assert_eq!(resolve_subpath(r"D:\m\job", r"C:\Windows").unwrap_err(), MirrorError::PathTraversal);
}

#[test]
fn missing_sources_are_dropped() {
    let paths = vec!["a".to_string(), "b".to_string(), "c".to_string()];
    assert_eq!(existing_sources(&paths, &vec![true, false, true]).unwrap(), vec!["a".to_string(), "c".to_string()]);
    assert!(matches!(existing_sources(&paths, &vec![false, false, false]), Err(SourceError::NothingToBackUp)));
}

#[test]
fn second_backup_of_an_unchanged_tree_plans_nothing() {
    let files = [("a.txt", 10u64, 100u64), (r"sub\b.txt", 20, 200), ("stable.txt", 10, 300)];
    let mut inventory: Inventory = Table::new();
    for (rel, size, secs) in files.iter().rev() {
        inventory.insert(rel.to_string(), FileStamp { size: *size, mtime_secs: Some(*secs) });
    }
    for (rel, size, secs) in files.iter() {
        let plan = plan_source_file(&mut inventory, rel, FileStamp { size: *size, mtime_secs: Some(*secs) });
        assert!(matches!(plan, FilePlan::Unchanged));
    }
    assert_eq!(inventory.len(), 0);
}

#[test]
fn retention_keeps_exactly_keep_versions() {
    let v = |name: &str| VersionFile { parent: "d".to_string(), name: name.to_string() };
    let files = vec![
        v("a-2026-01-01-000000.txt"),
        v("a-2026-01-02-000000.txt"),
        v("a-2026-01-03-000000.txt"),
        v("b-2026-01-01-000000.txt"),
        v("notes"),
    ];
    let pruned = prune_plan(&files, 2);
    assert_eq!(pruned, vec![true, false, false, false, false]);
    assert_eq!(prune_plan(&files, 5), vec![false; 5]);
    assert_eq!(prune_plan(&files, 1), vec![true, true, false, false, false]);
}

#[test]
fn subpaths_join_and_compare_as_windows_paths() {
    assert_eq!(resolve_subpath(r"C:\job1", r"\job1\x").unwrap(), r"C:\job1\x");
    assert_eq!(resolve_subpath(r"D:\m\job", r"..\x").unwrap(), r"D:\m\job\..\x");
    assert_eq!(resolve_subpath(r"D:\m\job", r"\other").unwrap_err(), MirrorError::PathTraversal);
    assert_eq!(kovre::paths::join_path("C:", "x"), "C:x");
    assert_eq!(kovre::paths::join_path(r"\\?\D:\m", r"a\.\b\..\c"), r"\\?\D:\m\a\c");
    assert_eq!(kovre::paths::join_path(r"D:\m", r"\top"), r"D:\top");
    assert!(kovre::win_path::path_starts_with(r"C:\a\b", "c:/a"));
    assert!(!kovre::win_path::path_starts_with(r"C:\ab", r"C:\a"));
}

#[test]
fn mirror_names_come_from_path_components() {
    let labels: Table<String> = Table::new();
    assert_eq!(dest_dir_name(r"D:\Pictures\.", &labels).unwrap(), "Pictures");
    assert_eq!(dest_dir_name("C:", &labels).unwrap_err(), MirrorError::NoBasename);
    assert_eq!(dest_dir_name("C:Docs", &labels).unwrap(), "Docs");
    assert_eq!(dest_dir_name(r"\\nas\share", &labels).unwrap_err(), MirrorError::NoBasename);
    assert_eq!(dest_dir_name(r"D:\a\..", &labels).unwrap_err(), MirrorError::NoBasename);
    assert_eq!(source_entry_action(r"a\\.versions\b.txt", false, false, true), EntryAction::Skip);
    assert_eq!(source_entry_action(r"a\.versionsX\b.txt", false, false, true), EntryAction::SyncFile);
}

fn tagged_snapshot(id: &str, time: &str, epoch_secs: i128, tag: &str) -> SnapshotInfo {
    SnapshotInfo {
        id: id.to_string(),
        time: time.to_string(),
        epoch_nanos: epoch_secs * 1_000_000_000,
        paths: vec![],
        hostname: "pc".to_string(),
        tags: vec![tag.to_string()],
        total_bytes_processed: None,
        data_added: None,
    }
}

#[test]
fn restore_picks_the_latest_instant_across_offsets() {
    let snaps = vec![
        tagged_snapshot("a", "2026-10-25T02:30:00+02:00[Europe/Paris]", 1_792_888_200, "kovre-job:j"),
        tagged_snapshot("b", "2026-10-25T02:10:00+01:00[Europe/Paris]", 1_792_890_600, "kovre-job:j"),
        tagged_snapshot("c", "2026-10-26T00:00:00+01:00[Europe/Paris]", 1_792_969_200, "kovre-job:other"),
    ];
    assert_eq!(newest_tagged(&snaps, "kovre-job:j"), Some(1));
    assert_eq!(newest_tagged(&snaps, "kovre-job:other"), Some(2));
    assert_eq!(newest_tagged(&snaps, "kovre-job:none"), None);
    let tie = vec![
        tagged_snapshot("x", "2026-01-01T01:00:00+01:00", 1_767_225_600, "t"),
        tagged_snapshot("y", "2026-01-01T00:00:00+00:00", 1_767_225_600, "t"),
    ];
    assert_eq!(newest_tagged(&tie, "t"), Some(1));
}

#[test]
fn retention_outcome_counts_kept_and_deleted_versions() {
    let v = |name: &str| VersionFile { parent: "d".to_string(), name: name.to_string() };
    let files = vec![
        v("a-2026-01-01-000000.txt"),
        v("a-2026-01-02-000000.txt"),
        v("a-2026-01-03-000000.txt"),
        v("b-2026-01-01-000000.txt"),
        v("notes"),
    ];
    let doomed = prune_plan(&files, 1);
    let o = retention_outcome(&files, &doomed, &vec![true; 5]);
    assert_eq!((o.kept, o.forgotten), (2, 2));
    let o = retention_outcome(&files, &doomed, &vec![false, true, true, true, true]);
    assert_eq!((o.kept, o.forgotten), (2, 1));
}
