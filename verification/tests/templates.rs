use kovre::config::Job;
use kovre::ludusavi::{after_response, request_etag, FileSpec, GameSpec, ManifestStep, WhenSpec};
use kovre::templates::browser_profiles::{default_true, BrowserOptions, BrowserProfilesTemplate};
use kovre::templates::dev_repos::{DevReposTemplate, ScanStep};
use kovre::templates::documents::{DocumentsTemplate, MissingFolder};
use kovre::templates::steam_saves::{
    applies_to_windows, collect_save_paths, common_dir, extract_quoted_value, library_list,
    public_dir, resolve_placeholders, strip_glob_tail, vdf_file, vdf_libraries, KnownDirs,
    SteamSavesTemplate,
};
use kovre::win_path::{path_less, paths_equal, sorted_unique_paths};
use kovre::templates::thunderbird_mail::ThunderbirdMailTemplate;
use kovre::templates::user_appdata::UserAppdataTemplate;
use kovre::templates::user_files::UserFilesTemplate;
use kovre::templates::{job_source, lookup_template, template_for, JobSource, TemplateKind};

fn dirs() -> KnownDirs {
    KnownDirs {
        home: Some(r"C:\Users\me".to_string()),
        documents: Some(r"C:\Users\me\Documents".to_string()),
        appdata: Some(r"C:\Users\me\AppData\Roaming".to_string()),
        local_appdata: Some(r"C:\Users\me\AppData\Local".to_string()),
        public: public_dir(None),
    }
}

fn file(tags: &[&str], os: &[Option<&str>]) -> FileSpec {
    FileSpec {
        tags: tags.iter().map(|t| t.to_string()).collect(),
        when: os.iter().map(|o| WhenSpec { os: o.map(|s| s.to_string()), store: None }).collect(),
    }
}

#[test]
fn name_is_user_files() {
    assert_eq!(UserFilesTemplate.name(), "user-files");
    assert_eq!(UserFilesTemplate::NAME, "user-files");
}

#[test]
fn name_is_documents() {
    assert_eq!(DocumentsTemplate.name(), "documents");
    assert_eq!(DocumentsTemplate::NAME, "documents");
}

#[test]
fn name_is_dev_repos() {
    assert_eq!(DevReposTemplate.name(), "dev-repos");
}

#[test]
fn name_is_steam_saves() {
    assert_eq!(SteamSavesTemplate.name(), "steam-saves");
}

#[test]
fn name_is_thunderbird_mail() {
    assert_eq!(ThunderbirdMailTemplate.name(), "thunderbird-mail");
}

#[test]
fn name_is_user_appdata() {
    assert_eq!(UserAppdataTemplate.name(), "user-appdata");
}

#[test]
fn name_is_browser_profiles() {
    assert_eq!(BrowserProfilesTemplate.name(), "browser-profiles");
}

#[test]
fn options_defaults_match_documented_behavior() {
    let opts = BrowserOptions::default();
    assert!(opts.firefox);
    assert!(opts.chrome);
    assert!(opts.edge);
    assert!(!opts.brave, "brave is off by default — niche browser");
    assert!(default_true());
}

#[test]
fn registry_knows_every_template_and_the_documents_alias() {
    assert_eq!(template_for("documents"), Some(TemplateKind::UserFiles));
    assert_eq!(template_for("user-files"), Some(TemplateKind::UserFiles));
    assert_eq!(template_for("dev-repos"), Some(TemplateKind::DevRepos));
    assert_eq!(template_for("steam-saves"), Some(TemplateKind::SteamSaves));
    assert_eq!(template_for("thunderbird-mail"), Some(TemplateKind::ThunderbirdMail));
    assert_eq!(template_for("browser-profiles"), Some(TemplateKind::BrowserProfiles));
    assert_eq!(template_for("user-appdata"), Some(TemplateKind::UserAppdata));
    assert_eq!(TemplateKind::UserFiles.name(), "user-files");
}

#[test]
fn registry_rejects_unknown_template() {
    let err = lookup_template("ghost").unwrap_err();
    assert!(err.message().contains("unknown template"));
    assert_eq!(err.message(), "unknown template `ghost`");
}

#[test]
fn job_with_template_resolves_through_it() {
    let job = Job {
        repository: "nas".to_string(),
        template: Some("dev-repos".to_string()),
        template_options: Some("scan_root: D:\\code".to_string()),
        paths: None,
        excludes: None,
        retention: None,
    };
    match job_source(&job) {
        JobSource::Template { name, options } => {
            assert_eq!(name, "dev-repos");
            assert_eq!(options.as_deref(), Some("scan_root: D:\\code"));
        }
        other => panic!("unexpected {other:?}"),
    }
}

#[test]
fn job_with_paths_resolves_to_them() {
    let job = Job {
        repository: "nas".to_string(),
        template: None,
        template_options: None,
        paths: Some(vec![r"D:\src".to_string()]),
        excludes: None,
        retention: None,
    };
    match job_source(&job) {
        JobSource::Explicit(r) => {
            assert_eq!(r.paths, vec![r"D:\src".to_string()]);
            assert!(r.excludes.is_empty());
            assert_eq!(r.path_labels.len(), 0);
        }
        other => panic!("unexpected {other:?}"),
    }
}

#[test]
fn user_files_keeps_found_folders_and_saved_games() {
    let known = vec![Some(r"C:\U\Documents".to_string()), None, Some(r"C:\U\Pictures".to_string())];
    let r = UserFilesTemplate::resolve_from(&known, Some(r"C:\U\Saved Games".to_string()));
    assert_eq!(
        r.paths,
        vec![r"C:\U\Documents".to_string(), r"C:\U\Pictures".to_string(), r"C:\U\Saved Games".to_string()]
    );
    assert_eq!(
        r.excludes,
        vec!["**/Thumbs.db".to_string(), "**/*.tmp".to_string(), "**/desktop.ini".to_string()]
    );
    assert_eq!(UserFilesTemplate::saved_games_dir(r"C:\U"), r"C:\U\Saved Games");
}

#[test]
fn documents_requires_all_three_folders() {
    let ok = DocumentsTemplate::resolve_from(Some("d".into()), Some("k".into()), Some("p".into())).unwrap();
    assert_eq!(ok.paths, vec!["d".to_string(), "k".to_string(), "p".to_string()]);
    let err = DocumentsTemplate::resolve_from(Some("d".into()), None, None).unwrap_err();
    assert_eq!(err, MissingFolder::Desktop);
    assert_eq!(err.folder_name(), "Desktop");
}

#[test]
fn user_appdata_excludes_cover_well_known_offenders() {
    let r = UserAppdataTemplate::resolve_from(Some(r"C:\U\AppData\Roaming".to_string()));
    assert_eq!(r.paths.len(), 1);
    let blob = r.excludes.join(" | ");
    for needle in ["Cache", "Temp", "Logs", "Thunderbird", "Firefox"] {
        assert!(blob.contains(needle));
    }
    assert!(UserAppdataTemplate::resolve_from(None).paths.is_empty());
}

#[test]
fn empty_when_appdata_is_none() {
    assert!(ThunderbirdMailTemplate::profiles_root(None).is_none());
    let r = ThunderbirdMailTemplate::resolve_from(Vec::new());
    assert!(r.paths.is_empty());
}

#[test]
fn thunderbird_profiles_are_sorted() {
    assert_eq!(
        ThunderbirdMailTemplate::profiles_root(Some(r"C:\A".to_string())).unwrap(),
        r"C:\A\Thunderbird\Profiles"
    );
    let r = ThunderbirdMailTemplate::resolve_from(vec!["b.work".to_string(), "a.default".to_string()]);
    assert_eq!(r.paths, vec!["a.default".to_string(), "b.work".to_string()]);
    assert!(r.excludes.iter().any(|e| e.contains("cache2")));
}

#[test]
fn dev_repos_excludes_and_scan_steps() {
    let r = DevReposTemplate::resolve_from(vec![]);
    assert_eq!(
        r.excludes,
        vec![
            "**/node_modules".to_string(),
            "**/target".to_string(),
            "**/.venv".to_string(),
            "**/dist".to_string(),
            "**/build".to_string(),
            "**/.next".to_string(),
        ]
    );
    assert_eq!(DevReposTemplate::scan_step("node_modules", true, true), ScanStep::Prune);
    assert_eq!(DevReposTemplate::scan_step("proj", true, true), ScanStep::Found);
    assert_eq!(DevReposTemplate::scan_step("proj", true, false), ScanStep::Descend);
    assert_eq!(DevReposTemplate::scan_step("README.md", false, false), ScanStep::Ignore);
}

#[test]
fn chromium_profiles_and_candidates() {
    let dirs = vec![
        ("U\\Default".to_string(), "Default".to_string()),
        ("U\\System Profile".to_string(), "System Profile".to_string()),
        ("U\\Profile 2".to_string(), "Profile 2".to_string()),
        ("U\\Profile 1".to_string(), "Profile 1".to_string()),
    ];
    assert_eq!(
        BrowserProfilesTemplate::select_profiles(dirs),
        vec!["U\\Default".to_string(), "U\\Profile 1".to_string(), "U\\Profile 2".to_string()]
    );
    let c = BrowserProfilesTemplate::profile_candidates("P");
    assert_eq!(c.len(), 14);
    assert_eq!(c[0].path, "P\\Bookmarks");
    assert!(!c[0].is_dir);
    assert_eq!(c[12].path, "P\\Extensions");
    assert!(c[12].is_dir);
    let roots = BrowserProfilesTemplate::chromium_roots(BrowserOptions::default(), r"C:\L");
    assert_eq!(roots, vec![r"C:\L\Google\Chrome".to_string(), r"C:\L\Microsoft\Edge".to_string()]);
    assert_eq!(BrowserProfilesTemplate::firefox_root(r"C:\R"), r"C:\R\Mozilla\Firefox\Profiles");
}

#[test]
fn applies_to_windows_with_no_when_clause_returns_true() {
    let spec = FileSpec::default();
    assert!(applies_to_windows(&spec));
}

#[test]
fn applies_to_windows_filter_matches() {
    let spec = FileSpec { tags: vec![], when: vec![WhenSpec { os: Some("windows".into()), store: None }] };
    assert!(applies_to_windows(&spec));
}

#[test]
fn applies_to_windows_excludes_other_os_only() {
    let spec = FileSpec { tags: vec![], when: vec![WhenSpec { os: Some("mac".into()), store: None }] };
    assert!(!applies_to_windows(&spec));
}

#[test]
fn strip_glob_tail_handles_intermediate_glob() {
    assert_eq!(strip_glob_tail(r"C:\foo\*.dir\bar"), r"C:\foo");
}

#[test]
fn strip_glob_tail_handles_mixed_separators() {
    let s = strip_glob_tail(r"C:\Users\yoan\AppData\Local/Robot Entertainment/Orcs/SaveGames/*.sav");
    assert!(!s.contains('*'), "expected glob stripped, got {s:?}");
    assert!(s.contains("SaveGames"), "expected SaveGames preserved, got {s:?}");
}

#[test]
fn strip_glob_tail_keeps_a_root() {
    assert_eq!(strip_glob_tail(r"C:\*.sav"), r"C:\");
    assert_eq!(strip_glob_tail("*.sav"), "");
    assert_eq!(strip_glob_tail(r"C:\plain\path"), r"C:\plain\path");
}

#[test]
fn extract_quoted_value_handles_typical_vdf_line() {
    let raw = r#"		"D:\\SteamLibrary""#;
    assert_eq!(extract_quoted_value(raw).as_deref(), Some(r"D:\\SteamLibrary"));
}

#[test]
fn resolve_placeholders_substitutes_winappdata() {
    let s = resolve_placeholders("<winAppData>/MyGame/Saves", &dirs()).unwrap();
    assert!(!s.contains('<'));
    assert!(!s.contains('>'));
    assert!(s.ends_with(r"MyGame\Saves") || s.ends_with("MyGame/Saves"));
}

#[test]
fn resolve_placeholders_returns_none_for_unsupported() {
    assert!(resolve_placeholders("<storeUserId>/foo", &dirs()).is_none());
    assert!(resolve_placeholders("<base>/save.dat", &dirs()).is_none());
}

#[test]
fn resolve_placeholders_passthrough_for_literal_path() {
    assert!(paths_equal(&resolve_placeholders("C:/literal/path", &dirs()).unwrap(), "C:/literal/path"));
}

#[test]
fn resolve_placeholders_strips_trailing_glob() {
    let s = resolve_placeholders("<winLocalAppData>/MyGame/Saves/*.sav", &dirs()).unwrap();
    assert!(s.ends_with("MyGame\\Saves") || s.ends_with("MyGame/Saves"));
    assert!(!s.contains('*'));
}

#[test]
fn unknown_directory_drops_the_pattern() {
    let mut d = dirs();
    d.documents = None;
    assert!(resolve_placeholders("<winDocuments>/G", &d).is_none());
    assert_eq!(resolve_placeholders("<winPublic>/G", &d).unwrap(), r"C:\Users\Public\G");
}

#[test]
fn vdf_library_paths_are_unescaped() {
    let content = "\"libraryfolders\"\n{\n\t\"0\"\n\t{\n\t\t\"path\"\t\t\"C:\\\\Program Files (x86)\\\\Steam\"\n\t}\n\t\"1\"\n\t{\n\t\t\"path\"\t\t\"D:\\\\SteamLibrary\"\r\n\t}\n}\n";
    let libs = vdf_libraries(content, r"C:\Program Files (x86)\Steam");
    assert_eq!(libs, vec![r"D:\SteamLibrary".to_string()]);
    let all = library_list(r"C:\Steam", &libs, &vec![r"A:\Extra".to_string(), r"D:\SteamLibrary".to_string()]);
    assert_eq!(all, vec![r"A:\Extra".to_string(), r"C:\Steam".to_string(), r"D:\SteamLibrary".to_string()]);
    assert_eq!(vdf_file(r"C:\Steam"), r"C:\Steam\steamapps\libraryfolders.vdf");
    assert_eq!(common_dir(r"D:\Lib"), r"D:\Lib\steamapps\common");
}

#[test]
fn save_paths_of_installed_games() {
    let hades = GameSpec {
        install_dir: vec!["Hades".to_string()],
        files: vec![
            ("<home>/Library/Hades".to_string(), file(&["save"], &[Some("mac")])),
            ("<winDocuments>/Saved Games/Hades".to_string(), file(&["config", "save"], &[Some("windows")])),
            ("<winDocuments>/Hades/log.txt".to_string(), file(&["log"], &[])),
        ],
    };
    let other = GameSpec {
        install_dir: vec!["Other".to_string()],
        files: vec![("<home>/Other".to_string(), file(&["save"], &[]))],
    };
    let manifest = vec![("Hades".to_string(), hades), ("Other".to_string(), other)];
    let found = collect_save_paths(&manifest, &vec!["Hades".to_string()], &dirs());
    assert_eq!(found, vec![r"C:\Users\me\Documents\Saved Games\Hades".to_string()]);
    let r = SteamSavesTemplate::resolve_from(&manifest, &vec!["Hades".to_string(), "Other".to_string()], &dirs());
    assert_eq!(
        r.paths,
        vec![r"C:\Users\me\Documents\Saved Games\Hades".to_string(), r"C:\Users\me\Other".to_string()]
    );
    assert!(r.excludes.is_empty());
}

#[test]
fn manifest_answers_and_etags() {
    assert_eq!(after_response(304), ManifestStep::UseCache);
    assert_eq!(after_response(200), ManifestStep::SaveDownload);
    assert_eq!(after_response(500), ManifestStep::FallBackToCache);
    assert_eq!(request_etag(Some("  \"abc\"\n".to_string())).as_deref(), Some("\"abc\""));
    assert_eq!(request_etag(Some("  ".to_string())), None);
    assert_eq!(request_etag(None), None);
}

#[test]
fn strip_glob_tail_rebuilds_with_backslashes() {
    assert_eq!(
        strip_glob_tail(r"C:\Users\yoan\AppData\Local/Robot Entertainment/Orcs/SaveGames/*.sav"),
        r"C:\Users\yoan\AppData\Local\Robot Entertainment\Orcs\SaveGames"
    );
    assert_eq!(strip_glob_tail("C:/literal//path/"), r"C:\literal\path");
    assert_eq!(strip_glob_tail(r"C:\a\.\b"), r"C:\a\b");
    assert_eq!(strip_glob_tail(r"\\server\share\dir\*.sav"), r"\\server\share\dir");
    assert_eq!(strip_glob_tail(r"\\?\C:\games\x"), "");
    assert_eq!(strip_glob_tail(r".\saves\*"), r".\saves");
    assert_eq!(resolve_placeholders("C:/literal/path", &dirs()).unwrap(), r"C:\literal\path");
}

#[test]
fn paths_compare_by_component() {
    assert!(path_less(r"C:\a\x", r"C:\a b"));
    assert!(!path_less(r"C:\a b", r"C:\a\x"));
    assert!(paths_equal(r"C:\a\", r"C:\a"));
    assert!(paths_equal(r"c:\Steam", r"C:/Steam"));
    assert!(!paths_equal(r"C:\Steam", r"C:\steam"));
    assert!(path_less(r"\\server\share", r"C:\a"));
    assert!(path_less(r"C:\a", r"D:\a"));
    assert!(path_less(r"\a", r"a"));
    let sorted = sorted_unique_paths(&vec![
        r"C:\a b".to_string(),
        r"c:\a\x".to_string(),
        r"C:\a\x\".to_string(),
        r"C:\a b".to_string(),
    ]);
    assert_eq!(sorted, vec![r"c:\a\x".to_string(), r"C:\a b".to_string()]);
}

#[test]
fn libraries_naming_the_install_directory_are_dropped() {
    let content = "\"path\"\t\t\"C:/Program Files (x86)/Steam\"\n\"path\"\t\t\"E:\\\\Games\"\n";
    let libs = vdf_libraries(content, r"C:\Program Files (x86)\Steam");
    assert_eq!(libs, vec![r"E:\Games".to_string()]);
    let all = library_list(r"C:\Steam", &vec![r"C:\Steam\".to_string(), r"C:\Steam Lib".to_string()], &vec![]);
    assert_eq!(all, vec![r"C:\Steam".to_string(), r"C:\Steam Lib".to_string()]);
}

#[test]
fn cutting_the_glob_tail_twice_changes_nothing() {
    for p in [
        r"C:\foo\*.dir\bar",
        r"C:\Users\yoan\AppData\Local/Robot Entertainment/Orcs/SaveGames/*.sav",
        "C:/a//b/./c/",
        r"D:\x\..\y\[abc]",
    ] {
        let once = strip_glob_tail(p);
        assert_eq!(strip_glob_tail(&once), once);
    }
    assert_eq!(strip_glob_tail(r"D:\x\..\y\[abc]"), r"D:\x\..\y");
}
