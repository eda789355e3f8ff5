use codex_migrate::desktop_state::register_projects;
use codex_migrate::html_export::{export_file, export_pages};
use codex_migrate::model::{
    ImportOptions, MergeAction, PlannedThread, PlatformKind, ScannedThread, SourceSession,
    ThreadRecord,
};
use codex_migrate::operations::{
    is_login_credential_path, is_thread_rollout, plan_directory_import, scan_source,
};
use codex_migrate::scanner::{scan_rollout_content, ScanError};
use codex_migrate::selection::{
    apply_parent_mapping_to, common_parent, projects_selection_state, set_projects_selected,
    CheckState, UiProject, UiSession,
};
use codex_migrate::session_index::{load_entries, sync_imported};
use codex_migrate::transaction::transaction_directory;
use codex_migrate::execution::{existing_rollouts, retired_copy};
use codex_migrate::validator::{diagnose, diagnose_report};
use codex_migrate::discovery::Environment;
use codex_migrate::rollout::{rewrite_cwd_bytes, validate_cwd_content, RolloutError};

fn record(id: &str, title: &str, cwd: &str) -> ThreadRecord {
    ThreadRecord {
        id: id.to_owned(),
        title: title.to_owned(),
        created_at: 0,
        updated_at: 0,
        cwd: cwd.to_owned(),
        source: "test".to_owned(),
        thread_source: Some("user".to_owned()),
        model_provider: "openai".to_owned(),
        cli_version: String::new(),
        archived: false,
        archive_path: format!("sessions/{id}.jsonl"),
        sha256: String::new(),
        byte_len: 0,
        first_user_message: String::new(),
        sandbox_policy: None,
        approval_mode: None,
        model: None,
        reasoning_effort: None,
    }
}

fn session(id: &str) -> UiSession {
    UiSession {
        selected: true,
        source: SourceSession {
            source_path: format!("/source/{id}.jsonl"),
            thread: record(id, id, "/old/project"),
        },
    }
}

fn rollout_text(id: &str, cwd: &str, title: &str) -> String {
    let meta = format!(
        "{{\"timestamp\":\"2026-06-19T04:00:00Z\",\"type\":\"session_meta\",\"payload\":{{\"id\":\"{id}\",\"timestamp\":\"2026-06-19T04:00:00Z\",\"cwd\":\"{cwd}\",\"source\":\"vscode\",\"model_provider\":\"openai\",\"cli_version\":\"0.142.0\"}}}}\n"
    );
    let message = "{\"timestamp\":\"2026-06-19T04:00:01Z\",\"type\":\"event_msg\",\"payload\":{\"type\":\"user_message\",\"message\":\"hello\"}}\n";
    let name = format!(
        "{{\"timestamp\":\"2026-06-19T04:00:02Z\",\"type\":\"event_msg\",\"payload\":{{\"type\":\"thread_name_updated\",\"thread_id\":\"{id}\",\"thread_name\":\"{title}\"}}}}\n"
    );
    meta + message + &name
}

fn scanned(home: &str, id: &str, cwd: &str, title: &str, archived: bool) -> ScannedThread {
    let name = format!("rollout-2026-06-19T12-00-00-{id}");
    let (folder, relative) = if archived {
        ("archived_sessions", format!("{name}.jsonl"))
    } else {
        ("sessions", format!("2026/06/19/{name}.jsonl"))
    };
    let path = format!("{home}/{folder}/{relative}");
    scan_rollout_content(
        rollout_text(id, cwd, title).into_bytes(),
        &path,
        &relative,
        Some(&name),
        archived,
        &[],
    )
    .unwrap()
}

fn planned(id: &str, title: &str) -> PlannedThread {
    let mut thread = record(id, title, "/old");
    thread.first_user_message = title.to_owned();
    PlannedThread {
        thread,
        source_path: String::new(),
        mapped_cwd: "/new".to_owned(),
        history_only: false,
        target_path: String::new(),
        action: MergeAction::Import,
        reason: String::new(),
    }
}

#[test]
fn project_selection_supports_all_partial_and_none() {
    let mut project = UiProject {
        original_cwd: "/old/project".to_owned(),
        target_path: String::new(),
        history_only: false,
        expanded: true,
        sessions: vec![session("one"), session("two")],
    };
    assert_eq!(project.state(), CheckState::All);

    project.sessions[0].selected = false;
    assert_eq!(project.state(), CheckState::Partial);

    project.set_selected(false);
    assert_eq!(project.state(), CheckState::Clear);

    project.set_selected(true);
    assert_eq!(project.state(), CheckState::All);
}

#[test]
fn common_parent_and_parent_mapping_match_existing_projects() {
    assert_eq!(
        common_parent(&["/old/projects/a".to_owned(), "/old/projects/b".to_owned()]).as_deref(),
        Some("/old/projects")
    );
    let root = "/new/projects";
    let project_path = "/new/projects/demo";
    let mut projects = vec![UiProject {
        original_cwd: "/old/projects/demo".to_owned(),
        target_path: String::new(),
        history_only: false,
        expanded: true,
        sessions: vec![session("one")],
    }];
    let present = vec![project_path.to_owned()];
    apply_parent_mapping_to(
        &mut projects,
        "/old/projects",
        root,
        PlatformKind::Linux,
        &present,
    );
    assert_eq!(projects[0].target_path, project_path);
}

#[test]
fn html_selection_defaults_to_none_and_supports_select_all() {
    let mut projects = vec![UiProject {
        original_cwd: "/project".to_owned(),
        target_path: "/project".to_owned(),
        history_only: false,
        expanded: true,
        sessions: vec![session("one"), session("two")],
    }];
    set_projects_selected(&mut projects, false);
    assert_eq!(projects_selection_state(&projects), CheckState::Clear);
    set_projects_selected(&mut projects, true);
    assert_eq!(projects_selection_state(&projects), CheckState::All);
    projects[0].sessions[0].selected = false;
    assert_eq!(projects_selection_state(&projects), CheckState::Partial);
}

#[test]
fn adds_projects_without_removing_existing_state() {
    let existing =
        br#"{"electron-persisted-atom-state":{"other":true,"project-order":["/existing"]}}"#;
    let written = register_projects(
        Some(&existing[..]),
        &["/existing".to_owned(), "/new".to_owned()],
    )
    .unwrap()
    .unwrap();
    let value: serde_json::Value = serde_json::from_slice(&written).unwrap();
    assert_eq!(value["project-order"].as_array().unwrap().len(), 2);
    assert_eq!(
        value["electron-saved-workspace-roots"].as_array().unwrap().len(),
        2
    );
    let state = &value["electron-persisted-atom-state"];
    assert_eq!(state["other"], true);
    assert_eq!(state["project-order"].as_array().unwrap().len(), 2);
    assert_eq!(
        state["electron-saved-workspace-roots"].as_array().unwrap().len(),
        2
    );
}

#[test]
fn preserves_source_sidebar_name_and_promotes_timestamp() {
    let source = load_entries(
        "{\"id\":\"thread-1\",\"thread_name\":\"短名称\",\"updated_at\":\"2020-01-01T00:00:00Z\"}\n"
            .as_bytes(),
    )
    .unwrap();
    let (index, promoted) = sync_imported(
        Vec::new(),
        &source,
        &[planned("thread-1", "很长的标题")],
        1_781_841_600,
        "2026-06-19T04:00:00.000Z",
    );
    let entry: serde_json::Value = serde_json::from_slice(&index[0].1).unwrap();
    assert_eq!(entry["thread_name"], "短名称");
    assert_ne!(entry["updated_at"], "2020-01-01T00:00:00Z");
    assert_eq!(promoted, vec![("thread-1".to_owned(), 1_781_841_600)]);
}

#[test]
fn deletes_only_selected_transaction_directories() {
    assert_eq!(
        transaction_directory("/home/.codex", "first", 1).unwrap(),
        "/home/.codex/migration_transactions/first"
    );
    assert!(transaction_directory("/home/.codex", "../second", 2).is_err());
    assert!(transaction_directory("/home/.codex", "..", 1).is_err());
    assert!(transaction_directory("/home/.codex", "", 0).is_err());
}

fn export_thread(id: &str, title: &str, cwd: &str, content: &str) -> ScannedThread {
    let mut thread = record(id, title, cwd);
    thread.thread_source = None;
    ScannedThread {
        record: thread,
        source_path: format!("{cwd}/rollout.jsonl"),
        content: content.as_bytes().to_vec(),
    }
}

#[test]
fn exports_to_project_codex_sessions_folder() {
    let id = "11111111-2222-3333-4444-555555555555";
    let content = [
        r#"{"type":"event_msg","payload":{"type":"user_message","message":"hello <world>"}}"#,
        r#"{"type":"response_item","payload":{"type":"message","role":"user","content":[{"type":"input_text","text":"hello <world>"}]}}"#,
        r#"{"type":"response_item","payload":{"type":"message","role":"assistant","content":[{"type":"output_text","text":"done"}]}}"#,
    ]
    .join("\n")
        + "\n";
    let thread = export_thread(id, "Demo", "/work/demo", &content);
    let file = export_file(&thread, None, true).unwrap();
    assert!(file.html.contains("hello &lt;world&gt;"));
    assert_eq!(file.html.matches("hello &lt;world&gt;").count(), 1);
    assert!(!file.html.contains("019e"));
    assert!(file.path.contains("Codex_sessions"));
    assert_eq!(file.directory, "/work/demo/Codex_sessions");
    assert_eq!(file.path, "/work/demo/Codex_sessions/Demo-11111111.html");
}

#[test]
fn embeds_user_images_and_tool_screenshots_in_one_html_file() {
    let id = "12121212-3434-5656-7878-909090909090";
    let user_image = "data:image/png;base64,dXNlcg==";
    let tool_image = "data:image/jpeg;base64,dG9vbA==";
    let content = format!(
        r#"{{"type":"response_item","payload":{{"type":"message","role":"user","content":[{{"type":"input_text","text":"show image"}},{{"type":"input_image","image_url":"{user_image}"}}]}}}}
{{"type":"response_item","payload":{{"type":"function_call_output","call_id":"call_1","output":[{{"type":"input_image","image_url":"{tool_image}"}}]}}}}
{{"type":"response_item","payload":{{"type":"function_call_output","call_id":"call_2","output":[{{"type":"input_image","image_url":"{tool_image}"}}]}}}}
"#
    );
    let thread = export_thread(id, "Images", "/work/images", &content);
    let file = export_file(&thread, None, true).unwrap();
    assert!(file.html.contains(user_image));
    assert!(file.html.contains(tool_image));
    assert_eq!(file.html.matches(tool_image).count(), 1);
}

#[test]
fn exports_to_user_selected_folder() {
    let id = "aaaaaaaa-bbbb-cccc-dddd-eeeeeeeeeeee";
    let thread = export_thread(
        id,
        "Selected folder",
        "/work/selected",
        r#"{"type":"event_msg","payload":{"type":"user_message","message":"hello"}}"#,
    );
    let file = export_file(&thread, Some("/chosen/output"), true).unwrap();
    assert!(file.path.starts_with("/chosen/output/"));
    assert!(export_file(&thread, None, false).is_err());
}

#[test]
fn export_pages_covers_the_selection_in_scan_order() {
    let line = r#"{"type":"event_msg","payload":{"type":"user_message","message":"hi"}}"#;
    let first = export_thread("aaaaaaaa-0000-0000-0000-000000000000", "First", "/work/one", line);
    let second = export_thread("bbbbbbbb-0000-0000-0000-000000000000", "Second", "/work/two", line);
    let third = export_thread("cccccccc-0000-0000-0000-000000000000", "Third", "/work/missing", line);
    let threads = vec![first, second, third];
    let selected = vec![
        "bbbbbbbb-0000-0000-0000-000000000000".to_string(),
        "aaaaaaaa-0000-0000-0000-000000000000".to_string(),
    ];
    let present = vec!["/work/one".to_string(), "/work/two".to_string()];
    let pages = export_pages(&threads, &selected, None, &present).unwrap();
    assert_eq!(pages.len(), 2);
    assert_eq!(pages[0].path, "/work/one/Codex_sessions/First-aaaaaaaa.html");
    assert_eq!(pages[1].path, "/work/two/Codex_sessions/Second-bbbbbbbb.html");
    let chosen = export_pages(&threads, &selected, Some("/out"), &present).unwrap();
    assert_eq!(chosen[1].path, "/out/Second-bbbbbbbb.html");
    let with_missing = vec!["cccccccc-0000-0000-0000-000000000000".to_string()];
    assert!(export_pages(&threads, &with_missing, None, &present).is_err());
    assert!(export_pages(&threads, &[], None, &present).unwrap().is_empty());
}

#[test]
fn rejects_malformed_jsonl() {
    let name = "rollout-2026-06-19T12-00-00-11111111-2222-3333-4444-555555555555";
    let result = scan_rollout_content(
        b"{not-json}\n".to_vec(),
        &format!("/home/sessions/{name}.jsonl"),
        &format!("{name}.jsonl"),
        Some(name),
        false,
        &[],
    );
    assert_eq!(result.unwrap_err(), ScanError::InvalidJsonLine(1));
}

#[test]
fn scans_archived_unicode_session() {
    let id = "aaaaaaaa-bbbb-cccc-dddd-eeeeeeeeeeee";
    let thread = scanned("/home", id, "/项目/论文", "", true);
    assert!(thread.record.archived);
    assert_eq!(thread.record.cwd, "/项目/论文");
    assert_eq!(thread.record.id, id);
    assert_eq!(
        thread.record.archive_path,
        format!("archived_sessions/rollout-2026-06-19T12-00-00-{id}.jsonl")
    );
}

#[test]
fn scan_without_sqlite_uses_rollout_title_and_groups_by_project() {
    let threads = vec![
        scanned(
            "/source",
            "11111111-1111-1111-1111-111111111111",
            "/old/project/demo",
            "First session",
            false,
        ),
        scanned(
            "/source",
            "22222222-2222-2222-2222-222222222222",
            "/old/project/demo",
            "Second session",
            true,
        ),
    ];
    let catalog = scan_source("/source", &threads, &[]).unwrap();
    assert_eq!(catalog.thread_count, 2);
    assert_eq!(catalog.projects.len(), 1);
    assert_eq!(catalog.projects[0].sessions.len(), 2);
    assert!(catalog.projects[0]
        .sessions
        .iter()
        .any(|session| session.thread.title == "First session"));
    assert!(catalog.projects[0]
        .sessions
        .iter()
        .any(|session| session.thread.archived));
    assert!(scan_source("/source", &[], &[]).is_err());
}

fn environment(home: &str, state_db: Option<&str>) -> Environment {
    Environment {
        codex_home: home.to_owned(),
        sqlite_home: home.to_owned(),
        codex_executable: None,
        codex_version: None,
        platform: PlatformKind::Linux,
        wsl: false,
        state_db: state_db.map(str::to_owned),
        schema_version: Some(1),
    }
}

#[test]
fn doctor_detects_stale_database_path() {
    let id = "aaaaaaaa-bbbb-cccc-dddd-eeeeeeeeeeee";
    let thread = scanned("/home", id, "/old/project/demo", "Test thread", false);
    let report = diagnose(
        &environment("/home", Some("/home/state_5.sqlite")),
        true,
        &[thread.clone()],
        1,
        Some("ok".to_owned()),
        &[Some("/missing/rollout.jsonl".to_owned())],
        &[id.to_owned()],
    );
    assert!(!report.issues.is_empty());
    let healthy = diagnose(
        &environment("/home", Some("/home/state_5.sqlite")),
        true,
        &[thread.clone()],
        1,
        Some("ok".to_owned()),
        &[Some(thread.source_path.clone())],
        &[id.to_owned()],
    );
    assert!(healthy.issues.is_empty());
}

fn options(selected: &[&str], mappings: &[(&str, &str)], history_only: &[&str]) -> ImportOptions {
    ImportOptions {
        selected_thread_ids: selected.iter().map(|s| s.to_string()).collect(),
        mappings: mappings
            .iter()
            .map(|(a, b)| (a.to_string(), b.to_string()))
            .collect(),
        history_only_projects: history_only.iter().map(|s| s.to_string()).collect(),
    }
}

#[test]
fn history_only_uses_one_stable_project_directory() {
    let threads = vec![
        scanned(
            "/source",
            "33333333-3333-3333-3333-333333333333",
            "C:/missing/project",
            "History one",
            false,
        ),
        scanned(
            "/source",
            "44444444-4444-4444-4444-444444444444",
            "C:/missing/project",
            "History two",
            false,
        ),
    ];
    let opts = options(
        &[
            "33333333-3333-3333-3333-333333333333",
            "44444444-4444-4444-4444-444444444444",
        ],
        &[],
        &["C:/missing/project"],
    );
    let plan = plan_directory_import(
        "/source",
        &threads,
        &[],
        "/target",
        PlatformKind::Linux,
        &opts,
        &[],
    )
    .unwrap();
    assert_eq!(plan.threads.len(), 2);
    assert_eq!(plan.threads[0].mapped_cwd, plan.threads[1].mapped_cwd);
    assert!(plan.threads[0].mapped_cwd.contains("migration_history"));
    assert!(plan.threads.iter().all(|thread| thread.history_only));
}

#[test]
fn imports_selected_thread_with_sqlite_fallback_and_rolls_back() {
    let selected_id = "99999999-2222-3333-4444-555555555555";
    let excluded_id = "88888888-2222-3333-4444-555555555555";
    let source = vec![
        scanned("/source", selected_id, "/old/project/demo", "Test thread", false),
        scanned("/source", excluded_id, "/old/project/demo", "Excluded session", false),
    ];
    let opts = options(&[selected_id], &[("/old/project", "/target/projects")], &[]);
    let plan = plan_directory_import(
        "/source",
        &source,
        &[],
        "/target",
        PlatformKind::Linux,
        &opts,
        &[],
    )
    .unwrap();
    assert_eq!(plan.threads.len(), 1);
    assert_eq!(plan.threads[0].thread.id, selected_id);
    assert_eq!(plan.threads[0].action, MergeAction::Import);
    assert_eq!(plan.threads[0].mapped_cwd, "/target/projects/demo");

    let imported = scanned(
        "/target",
        selected_id,
        "/target/projects/demo",
        "Test thread",
        false,
    );
    let repeated = plan_directory_import(
        "/source",
        &source,
        &[imported],
        "/target",
        PlatformKind::Linux,
        &opts,
        &[],
    )
    .unwrap();
    assert_eq!(repeated.threads[0].action, MergeAction::SkipIdentical);
}

#[test]
fn exports_scans_and_dry_runs_directory_backup() {
    let parts = |p: &str| p.split('/').map(str::to_owned).collect::<Vec<_>>();
    assert!(is_login_credential_path(&parts("auth.json")));
    assert!(!is_login_credential_path(&parts("skills/example/SKILL.md")));
    assert!(is_thread_rollout(&parts("sessions/2026/06/19/rollout.jsonl")));
    assert!(!is_thread_rollout(&parts("session_index.jsonl")));

    let id = "11111111-2222-3333-4444-555555555555";
    let threads = vec![scanned("/backup/Codex", id, "/old/project/demo", "Test thread", false)];
    let catalog = scan_source("/backup/Codex", &threads, &[]).unwrap();
    assert_eq!(catalog.thread_count, 1);
    assert_eq!(catalog.projects[0].sessions[0].thread.title, "Test thread");
    let opts = options(&[id], &[("/old/project", "/target/projects")], &[]);
    let plan = plan_directory_import(
        "/backup/Codex",
        &threads,
        &[],
        "/target",
        PlatformKind::Linux,
        &opts,
        &[],
    )
    .unwrap();
    assert_eq!(plan.threads[0].action, MergeAction::Import);
    assert_eq!(plan.threads[0].mapped_cwd, "/target/projects/demo");
}

#[test]
fn report_follows_the_path_comparison() {
    let id = "aaaaaaaa-bbbb-cccc-dddd-eeeeeeeeeeee";
    let thread = scanned("/home", id, "/old/project/demo", "Test thread", false);
    let env = environment("/home", Some("/home/state_5.sqlite"));
    let indexed = vec![Some(thread.source_path.clone())];
    let stale = diagnose_report(&env, true, &[thread.clone()], 1, None, &indexed, &[false], &[id.to_owned()]);
    assert_eq!(stale.issues, vec![format!("thread {id} rollout path is missing or stale")]);
    let fine = diagnose_report(&env, true, &[thread.clone()], 1, None, &indexed, &[true], &[id.to_owned()]);
    assert!(fine.issues.is_empty());
    let doubled = vec![Some(thread.source_path.replace("/sessions/", "/sessions//"))];
    assert!(diagnose(&env, true, &[thread], 1, None, &doubled, &[id.to_owned()]).issues.is_empty());
}

#[test]
fn retirement_follows_the_location_comparison() {
    let id = "99999999-2222-3333-4444-555555555555";
    let existing_thread = scanned("/target", id, "/x", "T", true);
    let existing = existing_rollouts(&[existing_thread.clone()]);
    let mut plan = planned(id, "T");
    plan.action = MergeAction::ReplaceWithLonger;
    plan.target_path = "/target/sessions/x.jsonl".to_owned();
    assert_eq!(retired_copy(&plan, &existing, true), None);
    assert_eq!(retired_copy(&plan, &existing, false), Some(existing_thread.source_path));
    plan.action = MergeAction::Import;
    assert_eq!(retired_copy(&plan, &existing, false), None);
}

#[test]
fn cwd_validation_accepts_exactly_matching_rollouts() {
    let meta = r#"{"type":"session_meta","payload":{"cwd":"/new/project"}}"#;
    let turn = r#"{"type":"turn_context","payload":{"cwd":"/new/project"}}"#;
    let other = r#"{"type":"turn_context","payload":{"cwd":"/old/project"}}"#;
    let ok = format!("{meta}\n\n{turn}\n");
    assert!(validate_cwd_content(ok.as_bytes(), "/new/project").is_ok());
    let mismatch = format!("{meta}\n{other}\n");
    assert!(matches!(
        validate_cwd_content(mismatch.as_bytes(), "/new/project"),
        Err(RolloutError::UnexpectedCwd(cwd)) if cwd == "/old/project"
    ));
    let no_meta = format!("{turn}\n");
    assert!(matches!(
        validate_cwd_content(no_meta.as_bytes(), "/new/project"),
        Err(RolloutError::NoSessionMeta)
    ));
    let broken = format!("{meta}\nnot json\n");
    assert!(matches!(
        validate_cwd_content(broken.as_bytes(), "/new/project"),
        Err(RolloutError::InvalidLine(2))
    ));
}

#[test]
fn last_session_meta_decides_the_record() {
    let content = [
        r#"{"type":"session_meta","payload":{"id":"first-id","cwd":"/first","model_provider":"a"}}"#,
        r#"{"type":"event_msg","payload":{"type":"user_message","message":"hi"}}"#,
        r#"{"type":"session_meta","payload":{"id":"second-id","cwd":"/second"}}"#,
    ]
    .join("\n")
        + "\n";
    let thread = scan_rollout_content(content.as_bytes().to_vec(), "/h/sessions/r.jsonl", "r.jsonl", None, false, &[])
        .unwrap();
    assert_eq!(thread.record.id, "second-id");
    assert_eq!(thread.record.cwd, "/second");
    assert_eq!(thread.record.model_provider, "openai");
}

#[test]
fn catalog_sessions_add_up_to_the_thread_count() {
    let threads = vec![
        scanned("/source", "11111111-1111-1111-1111-111111111111", "/work/b", "One", false),
        scanned("/source", "22222222-2222-2222-2222-222222222222", "/work/a", "Two", false),
        scanned("/source", "33333333-3333-3333-3333-333333333333", "/work/b/", "Three", true),
    ];
    let catalog = scan_source("/source", &threads, &[]).unwrap();
    let listed: usize = catalog.projects.iter().map(|project| project.sessions.len()).sum();
    assert_eq!(listed, catalog.thread_count);
    assert_eq!(catalog.thread_count, 3);
    assert_eq!(catalog.projects.len(), 2);
    assert_eq!(catalog.projects[0].original_cwd, "/work/a");
    assert_eq!(catalog.projects[1].sessions.len(), 2);
}

#[test]
fn rewrite_counts_only_records_that_name_another_folder() {
    let content = [
        r#"{"type":"session_meta","payload":{"cwd":"/old"}}"#,
        r#"{"type":"turn_context","payload":{"cwd":"/new"}}"#,
        "",
        r#"{"type":"turn_context","payload":{"model":"m"}}"#,
        r#"{"type":"response_item","payload":{"cwd":"/old"}}"#,
    ]
    .join("\n")
        + "\n";
    let (_, changed) = rewrite_cwd_bytes(content.as_bytes(), "/new").unwrap();
    assert_eq!(changed, 2);
    assert!(matches!(
        rewrite_cwd_bytes(b"{\"type\":\"x\"}\nnope\n", "/new"),
        Err(RolloutError::InvalidLine(2))
    ));
}

#[test]
fn last_rename_names_the_thread() {
    let content = [
        r#"{"type":"session_meta","payload":{"id":"t-1","cwd":"/w"}}"#,
        r#"{"type":"event_msg","payload":{"type":"user_message","message":"first question"}}"#,
        r#"{"type":"event_msg","payload":{"type":"thread_name_updated","thread_name":"Old name"}}"#,
        r#"{"type":"event_msg","payload":{"type":"thread_name_updated","thread_name":"New name"}}"#,
    ]
    .join("\n")
        + "\n";
    let thread = scan_rollout_content(content.into_bytes(), "/h/sessions/r.jsonl", "r.jsonl", None, false, &[])
        .unwrap();
    assert_eq!(thread.record.title, "New name");
    let unnamed = r#"{"type":"session_meta","payload":{"id":"t-2","cwd":"/w"}}
{"type":"event_msg","payload":{"type":"user_message","message":"first question"}}
"#;
    let thread = scan_rollout_content(unnamed.as_bytes().to_vec(), "/h/sessions/s.jsonl", "s.jsonl", None, false, &[])
        .unwrap();
    assert_eq!(thread.record.title, "first question");
}

#[test]
fn report_counts_every_rollout_and_names_a_missing_database() {
    let a = "aaaaaaaa-0000-0000-0000-000000000000";
    let b = "bbbbbbbb-0000-0000-0000-000000000000";
    let threads = vec![
        scanned("/home", a, "/w", "A", false),
        scanned("/home", b, "/w", "B", true),
    ];
    let ids = vec![a.to_owned(), b.to_owned()];
    let without = diagnose_report(&environment("/home", None), true, &threads, 0, None, &[], &[], &ids);
    assert_eq!(without.active_rollouts + without.archived_rollouts, 2);
    assert_eq!(without.issues, vec!["state database was not found".to_owned()]);
    let env = environment("/home", Some("/home/state_5.sqlite"));
    let indexed = vec![None, Some(threads[1].source_path.clone())];
    let with = diagnose_report(&env, true, &threads, 2, None, &indexed, &[false, true], &ids);
    assert_eq!(with.active_rollouts, 1);
    assert_eq!(with.archived_rollouts, 1);
    assert_eq!(with.issues, vec![format!("thread {a} rollout path is missing or stale")]);
}
