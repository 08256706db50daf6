use lclt_translator::config::{
    default_workspace_paths, hydrate_config_paths, library_paths_from_vdf, limbus_paths_for_library,
    load_blacklist, load_models, load_or_default_app_config, load_translation_configs,
    merge_resource_files, prepare_json_write, resource_files_from_entries, resources_with_fallback,
    save_app_config, value_or_problem, write_terminology, DirEntryInfo, WorkspacePaths,
};
use lclt_translator::error::UserFacingError;
use lclt_translator::models::{
    AppConfig, BlacklistConfig, DetectedGamePaths, LogLevel, ModelsConfig, ResourceFile,
    TaskProgressSnapshot, TaskStatus, TaskSummary, TranslationConfigs, TranslationStrategy,
    TranslationTask,
};
use lclt_translator::state::{AppState, MAX_IN_MEMORY_LOG_ENTRIES};

fn err(title: &str) -> UserFacingError {
    UserFacingError::new(title.to_string(), "m".to_string(), None)
}

#[test]
fn workspace_paths_follow_the_settings() {
    let p = default_workspace_paths("/ws");
    assert_eq!(p.config, "/ws/config.json");
    assert_eq!(p.models, "/ws/models.json");
    assert_eq!(p.translation_configs, "/ws/translation_configs.json");
    assert_eq!(p.blacklist, "/ws/BlackList.json");
    assert_eq!(p.prompts_dir, "/ws/prompts");
    assert_eq!(p.terminology_dir, "/ws/terminology");
    let mut c = AppConfig::default();
    c.config_files.models = "cfg/m.json".to_string();
    assert_eq!(WorkspacePaths::from_root("/ws", &c).models, "/ws/cfg/m.json");
}

#[test]
fn defaults_apply_when_files_are_missing() {
    let c = load_or_default_app_config(None).unwrap();
    assert_eq!(c.translation_settings.origin_language, "jp");
    assert_eq!(c.translation_settings.target_direction, "LCLT_zh");
    assert_eq!(c.translation_settings.max_workers, 256);
    assert_eq!(c.translation_settings.max_chars_per_batch, 2000);
    assert_eq!(c.translation_settings.max_retries, 4);
    assert_eq!(c.translation_settings.timeout, 90);
    assert!(c.options.confirm_before_translation && !c.options.keep_backup_files);
    let m = load_models(None).unwrap();
    assert_eq!(m.models.len(), 1);
    assert_eq!(m.models[0].0, "origin");
    assert_eq!(f64::from_bits(m.models[0].1.temperature_bits), 0.3);
    assert!(load_blacklist(None).unwrap().blacklist.is_empty());
    assert_eq!(load_blacklist(Some(Err(err("Invalid JSON")))).unwrap_err().title, "Invalid JSON");
    assert!(load_models(Some(Ok(ModelsConfig { models: vec![] }))).unwrap().models.is_empty());
    let _ = BlacklistConfig { blacklist: vec![] };
}

fn configs(names: &[&str]) -> TranslationConfigs {
    TranslationConfigs {
        translation_strategies: names
            .iter()
            .map(|n| TranslationStrategy {
                name: n.to_string(),
                priority: 0,
                file_patterns: vec![],
                model: "m".to_string(),
                prompt_file: "p".to_string(),
                terminology_file: None,
                extract_fields: None,
            })
            .collect(),
    }
}

#[test]
fn workspace_strategies_win_unless_empty() {
    let r = load_translation_configs(Some(Ok(configs(&["w"]))), Ok(configs(&["o"]))).unwrap();
    assert_eq!(r.translation_strategies[0].name, "w");
    let r = load_translation_configs(Some(Ok(configs(&[]))), Ok(configs(&["o"]))).unwrap();
    assert_eq!(r.translation_strategies[0].name, "o");
    let r = load_translation_configs(None, Err(err("x"))).unwrap();
    assert!(r.translation_strategies.is_empty());
    let e = load_translation_configs(Some(Err(err("Invalid JSON"))), Ok(configs(&["o"]))).unwrap_err();
    assert_eq!(e.title, "Invalid JSON");
}

#[test]
fn problems_are_collected_with_fallbacks() {
    let mut problems = vec![];
    assert_eq!(value_or_problem(&mut problems, Ok(3), 0), 3);
    assert_eq!(value_or_problem(&mut problems, Err(err("bad")), 7), 7);
    assert_eq!(problems.len(), 1);
    let files = resources_with_fallback(&mut problems, Err(err("dir")), None);
    assert!(files.is_empty());
    assert_eq!(problems.len(), 2);
}

fn rf(path: &str, label: &str) -> ResourceFile {
    ResourceFile { path: path.to_string(), label: label.to_string() }
}

#[test]
fn merged_resources_keep_workspace_files_and_sort_by_path() {
    let merged = merge_resource_files(
        vec![rf("prompts/b.txt", "workspace b"), rf("prompts/a.txt", "a")],
        vec![rf("prompts/b.txt", "bundled b"), rf("prompts/c.txt", "c"), rf("prompts/c.txt", "c2")],
    );
    let shown: Vec<(String, String)> = merged.into_iter().map(|r| (r.path, r.label)).collect();
    assert_eq!(
        shown,
        vec![
            ("prompts/a.txt".to_string(), "a".to_string()),
            ("prompts/b.txt".to_string(), "workspace b".to_string()),
            ("prompts/c.txt".to_string(), "c".to_string()),
        ]
    );
}

#[test]
fn listed_files_are_filtered_by_extension() {
    let entries = vec![
        DirEntryInfo { name: "b.TXT".to_string(), name_is_utf8: true, is_file: true },
        DirEntryInfo { name: "a.txt".to_string(), name_is_utf8: true, is_file: true },
        DirEntryInfo { name: "sub.txt".to_string(), name_is_utf8: true, is_file: false },
        DirEntryInfo { name: "c.json".to_string(), name_is_utf8: true, is_file: true },
    ];
    let files = resource_files_from_entries(&Some("prompts".to_string()), &entries, "txt");
    let shown: Vec<(String, String)> = files.into_iter().map(|r| (r.path, r.label)).collect();
    assert_eq!(
        shown,
        vec![
            ("prompts/a.txt".to_string(), "a.txt".to_string()),
            ("prompts/b.TXT".to_string(), "b.TXT".to_string()),
        ]
    );
}

#[test]
fn detected_game_folders_fill_placeholders() {
    let detected = DetectedGamePaths {
        steam_library_root: "L".to_string(),
        game_root: "G".to_string(),
        localize_root: "G/Localize".to_string(),
        lang_root: "G/Lang".to_string(),
    };
    let mut c = AppConfig::default();
    c.file_paths.output_direction = "keep/me".to_string();
    let (out, notice) = hydrate_config_paths(c, Some(&detected));
    assert_eq!(out.file_paths.input_direction, "G/Localize");
    assert_eq!(out.file_paths.output_direction, "keep/me");
    let notice = notice.unwrap();
    assert_eq!((notice.game_root.as_str(), notice.input_applied, notice.output_applied), ("G", true, false));

    let mut c = AppConfig::default();
    c.file_paths.input_direction = "x<Puts your Game Directory Here>".to_string();
    c.file_paths.output_direction = "y".to_string();
    let (out, _) = hydrate_config_paths(c, Some(&detected));
    assert_eq!(out.file_paths.input_direction, "G/Localize");

    let mut c = AppConfig::default();
    c.file_paths.input_direction = "a".to_string();
    c.file_paths.output_direction = "b".to_string();
    let (_, notice) = hydrate_config_paths(c, Some(&detected));
    assert!(notice.is_none());
    let (_, notice) = hydrate_config_paths(AppConfig::default(), None);
    assert!(notice.is_none());
}

#[test]
fn game_folders_inside_a_library() {
    let p = limbus_paths_for_library("/steam");
    assert_eq!(p.game_root, "/steam/steamapps/common/Limbus Company");
    assert_eq!(
        p.localize_root,
        "/steam/steamapps/common/Limbus Company/LimbusCompany_Data/Assets/Resources_moved/Localize"
    );
    assert_eq!(p.lang_root, "/steam/steamapps/common/Limbus Company/LimbusCompany_Data/Lang");
}

#[test]
fn library_folders_are_read_from_vdf() {
    let vdf = "\"libraryfolders\"\n{\n\t\"0\"\n\t{\n\t\t\"path\"\t\t\"C:\\\\Program Files (x86)\\\\Steam\"\n\t}\n\t\"1\"\n\t{\n\t\t\"path\"\t\t\"D:\\\\Games\"\n\t\t\"label\"\t\t\"\"\n\t}\n}\n";
    assert_eq!(
        library_paths_from_vdf(vdf),
        vec!["C:\\Program Files (x86)\\Steam".to_string(), "D:\\Games".to_string()]
    );
}

#[test]
fn writes_know_their_folder() {
    let w = prepare_json_write("ws/cfg/config.json", Ok("{}".to_string()));
    assert_eq!(w.parent, Some("ws/cfg".to_string()));
    assert_eq!(w.path, "ws/cfg/config.json");
    assert_eq!(w.content.unwrap(), "{}");
    let w = save_app_config("config.json", Ok("x".to_string()));
    assert_eq!(w.parent, Some("".to_string()));
    let w = write_terminology("d/t.json", Err("bad value".to_string()));
    assert_eq!(w.parent, Some("d".to_string()));
    let e = write_terminology("t.json", Err("bad value".to_string())).content.unwrap_err();
    assert_eq!(e.title, "Serialization Error");
    assert_eq!(e.message, "Failed to serialize t.json");
    assert_eq!(e.details, Some("bad value".to_string()));
}

#[test]
fn errors_describe_file_problems() {
    let e = UserFacingError::io("Read", "/a/b.json", "not found");
    assert_eq!(e.title, "File System Error");
    assert_eq!(e.message, "Read failed for /a/b.json");
    assert_eq!(e.details, Some("not found".to_string()));
    let e = UserFacingError::invalid_json("/a/b.json", "line 1");
    assert_eq!(e.message, "Failed to parse /a/b.json");
    assert_eq!(e.display(), "Invalid JSON: Failed to parse /a/b.json");
}

fn task(id: &str) -> TranslationTask {
    TranslationTask {
        task_id: id.to_string(),
        status: TaskStatus::Running,
        progress: TaskProgressSnapshot {
            scanned_files: 0,
            pending_chars: 0,
            completed_batches: 0,
            total_batches: 0,
            elapsed_ms: 0,
            output_directory: Some("out".to_string()),
        },
        logs: vec![],
        summary: None,
    }
}

#[test]
fn the_workspace_is_remembered() {
    let mut s = AppState::default();
    let e = s.resolve_workspace_root(None).unwrap_err();
    assert_eq!(e.title, "Workspace Required");
    assert_eq!(e.message, "Select a workspace root before using this action.");
    assert_eq!(s.set_workspace_root("/ws".to_string()), "/ws");
    assert_eq!(s.resolve_workspace_root(None).unwrap(), "/ws");
    assert_eq!(s.resolve_workspace_root(Some("/other".to_string())).unwrap(), "/other");
}

#[test]
fn cancelling_marks_the_task() {
    let mut s = AppState::default();
    assert_eq!(s.cancel_task("t1").unwrap_err().message, "No active task found.");
    s.begin_task(task("t1"), 100);
    assert!(!s.is_cancelled());
    let e = s.cancel_task("t2").unwrap_err();
    assert_eq!(e.title, "Task Mismatch");
    assert!(!s.is_cancelled());
    let t = s.cancel_task("t1").unwrap();
    assert_eq!(t.status, TaskStatus::Cancelling);
    assert!(s.is_cancelled());
    assert!(s.task_status(Some("t2".to_string())).is_none());
    assert_eq!(s.task_status(None).unwrap().task_id, "t1");
}

#[test]
fn the_log_keeps_the_newest_entries() {
    let mut s = AppState::default();
    assert_eq!(s.push_log(LogLevel::Info, "x".to_string(), 0).unwrap_err().title, "Task Missing");
    s.begin_task(task("t"), 1_000);
    for i in 0..(MAX_IN_MEMORY_LOG_ENTRIES + 5) {
        s.push_log(LogLevel::Info, format!("m{}", i), 1_000 + i as u128).unwrap();
    }
    let t = s.current_task().unwrap();
    assert_eq!(t.logs.len(), MAX_IN_MEMORY_LOG_ENTRIES);
    assert_eq!(t.logs[0].message, "m5");
    assert_eq!(t.logs[MAX_IN_MEMORY_LOG_ENTRIES - 1].message, format!("m{}", MAX_IN_MEMORY_LOG_ENTRIES + 4));
    let e = s.push_log(LogLevel::Warn, "late".to_string(), 900).unwrap();
    assert_eq!(e.timestamp_ms, 0);
}

#[test]
fn progress_and_completion_are_recorded() {
    let mut s = AppState::default();
    s.begin_task(task("t"), 10);
    s.set_scan_totals(3, 120, 4, 15).unwrap();
    s.complete_batch(20).unwrap();
    s.complete_batch(25).unwrap();
    s.clear_pending(30).unwrap();
    let t = s.current_task().unwrap();
    assert_eq!(
        (t.progress.scanned_files, t.progress.pending_chars, t.progress.completed_batches, t.progress.total_batches, t.progress.elapsed_ms),
        (3, 0, 2, 4, 20)
    );
    let summary = TaskSummary {
        translated_files: 1,
        translated_entries: 2,
        pending_chars: 0,
        output_directory: None,
        backup_directory: None,
        log_file: None,
        error: None,
    };
    let done = s.finish_task(TaskStatus::Succeeded, summary, 40).unwrap();
    assert_eq!(done.status, TaskStatus::Succeeded);
    assert_eq!(done.progress.elapsed_ms, 30);
    assert_eq!(done.summary.unwrap().translated_entries, 2);
}
