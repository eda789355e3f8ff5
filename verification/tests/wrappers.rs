use codex_migrate::operations::content_fingerprint;
use codex_migrate::desktop_state::register_projects;
use codex_migrate::execution::{existing_rollouts, thread_work, ThreadWork};
use codex_migrate::model::{MergeAction, PlannedThread, ThreadRecord};
use codex_migrate::path_mapper::history_only_path;
use codex_migrate::scanner::{scan_rollout_content, ScanError};
use codex_migrate::session_index::sync_imported;
use codex_migrate::sqlite_adapter::{validate_visible_thread, visibility_verdict, VisibilityError};

fn planned(id: &str) -> PlannedThread {
    PlannedThread {
        thread: ThreadRecord {
            id: id.to_owned(),
            title: format!("title {id}"),
            created_at: 1,
            updated_at: 2,
            cwd: "/old".to_owned(),
            source: "vscode".to_owned(),
            thread_source: Some("user".to_owned()),
            model_provider: "openai".to_owned(),
            cli_version: String::new(),
            archived: false,
            archive_path: "sessions/test.jsonl".to_owned(),
            sha256: String::new(),
            byte_len: 0,
            first_user_message: String::new(),
            sandbox_policy: None,
            approval_mode: None,
            model: None,
            reasoning_effort: None,
        },
        source_path: String::new(),
        mapped_cwd: "/new".to_owned(),
        history_only: false,
        target_path: String::new(),
        action: MergeAction::Import,
        reason: String::new(),
    }
}

#[test]
fn history_folder_is_named_by_digest_and_project() {
    assert_eq!(
        history_only_path("/history", "/Users/a/Project A"),
        "/history/1b3d63d8e82f-Project_A"
    );
    assert_eq!(history_only_path("/h", "/项目/论文"), "/h/914aac794962-论文");
}

#[test]
fn rollout_timestamp_gives_thread_times() {
    let name = "rollout-2026-06-19T12-00-00-aaaaaaaa-bbbb-cccc-dddd-eeeeeeeeeeee";
    let content = "{\"type\":\"session_meta\",\"payload\":{\"id\":\"aaaaaaaa-bbbb-cccc-dddd-eeeeeeeeeeee\",\"timestamp\":\"2026-06-19T04:00:00Z\",\"cwd\":\"/w\"}}\n";
    let thread = scan_rollout_content(
        content.as_bytes().to_vec(),
        "/home/sessions/x.jsonl",
        "x.jsonl",
        Some(name),
        false,
        &[],
    )
    .unwrap();
    assert_eq!(thread.record.created_at, 1_781_841_600);
    assert_eq!(thread.record.updated_at, 1_781_841_600);
    assert_eq!(thread.record.source, "unknown");
    assert_eq!(thread.record.model_provider, "openai");
    assert_eq!(thread.record.byte_len, content.len() as u64);
    assert_eq!(thread.record.sha256.len(), 64);
}

#[test]
fn non_utf8_line_is_refused() {
    let result = scan_rollout_content(
        vec![0xff, 0xfe, b'\n'],
        "/home/sessions/x.jsonl",
        "x.jsonl",
        None,
        false,
        &[],
    );
    assert_eq!(result.unwrap_err(), ScanError::UnreadableLine(1));
    let empty = scan_rollout_content(Vec::new(), "/p", "p", None, false, &[]);
    assert_eq!(empty.unwrap_err(), ScanError::EmptyRollout);
}

#[test]
fn missing_id_is_refused() {
    let result = scan_rollout_content(
        b"{\"type\":\"event_msg\",\"payload\":{}}\n".to_vec(),
        "/home/sessions/x.jsonl",
        "x.jsonl",
        Some("x"),
        false,
        &[],
    );
    assert_eq!(result.unwrap_err(), ScanError::MissingThreadId);
}

#[test]
fn synced_threads_get_descending_times() {
    let (index, promoted) = sync_imported(
        Vec::new(),
        &Vec::new(),
        &[planned("b"), planned("a")],
        1_781_841_600,
        "fallback",
    );
    assert_eq!(
        promoted,
        vec![("a".to_owned(), 1_781_841_599), ("b".to_owned(), 1_781_841_600)]
    );
    let entry = |k: usize| -> serde_json::Value { serde_json::from_slice(&index[k].1).unwrap() };
    assert_eq!(entry(0)["id"], "a");
    assert_eq!(entry(0)["updated_at"], "2026-06-19T03:59:59.000Z");
    assert_eq!(entry(1)["updated_at"], "2026-06-19T04:00:00.000Z");
    assert_eq!(entry(1)["thread_name"], "title b");
}

#[test]
fn folders_compare_as_paths() {
    let row = |cwd: &str| Some((cwd.to_owned(), "/r.jsonl".to_owned(), "hello".to_owned()));
    assert!(validate_visible_thread("t", row("/work/demo/"), "/work/demo", true).is_ok());
    assert!(validate_visible_thread("t", row("/work//demo"), "/work/demo", true).is_ok());
    assert_eq!(
        validate_visible_thread("t", row("/work/other"), "/work/demo", true),
        Err(VisibilityError::WrongCwd(
            "t".to_owned(),
            "/work/other".to_owned(),
            "/work/demo".to_owned()
        ))
    );
    assert_eq!(
        validate_visible_thread("t", row("/work/demo"), "/work/demo", false),
        Err(VisibilityError::MissingRollout("t".to_owned(), "/r.jsonl".to_owned()))
    );
    assert_eq!(
        validate_visible_thread(
            "t",
            Some(("/work/demo".to_owned(), "/r.jsonl".to_owned(), "  ".to_owned())),
            "/work/demo",
            true
        ),
        Err(VisibilityError::EmptyPreview("t".to_owned()))
    );
    assert_eq!(
        validate_visible_thread("t", None, "/work/demo", true),
        Err(VisibilityError::Missing("t".to_owned()))
    );
}

#[test]
fn replacing_import_retires_only_another_path() {
    let id = "aaaaaaaa-bbbb-cccc-dddd-eeeeeeeeeeee";
    let content = format!(
        "{{\"type\":\"session_meta\",\"payload\":{{\"id\":\"{id}\",\"cwd\":\"/old\"}}}}\n"
    );
    let scan = |path: &str| {
        scan_rollout_content(content.clone().into_bytes(), path, "x.jsonl", None, false, &[]).unwrap()
    };
    let source = vec![scan("/source/sessions/x.jsonl")];
    let mut plan = planned(id);
    plan.action = MergeAction::ReplaceWithLonger;
    plan.source_path = "/source/sessions/x.jsonl".to_owned();
    plan.target_path = "/target/sessions/x.jsonl".to_owned();
    let retire_for = |existing_path: &str| {
        let existing = existing_rollouts(&[scan(existing_path)]);
        match thread_work(&plan, &source, &existing).unwrap() {
            ThreadWork::Write { retire, bytes, cwd, .. } => {
                assert_eq!(cwd, "/new");
                assert!(String::from_utf8(bytes).unwrap().contains("\"cwd\":\"/new\""));
                retire
            }
            ThreadWork::Refresh { .. } => panic!("a replacing import writes"),
        }
    };
    assert_eq!(retire_for("/target/sessions/x.jsonl"), None);
    assert_eq!(retire_for("/target/sessions//x.jsonl"), None);
    assert_eq!(
        retire_for("/target/archived_sessions/x.jsonl"),
        Some("/target/archived_sessions/x.jsonl".to_owned())
    );
}

#[test]
fn verdict_functions_follow_the_comparison() {
    use_verdicts();
}

fn use_verdicts() {
    let row = Some(("/a".to_owned(), "/r.jsonl".to_owned(), "hi".to_owned()));
    assert_eq!(
        visibility_verdict("t", row.clone(), "/a", false, true),
        Err(VisibilityError::WrongCwd("t".to_owned(), "/a".to_owned(), "/a".to_owned()))
    );
    assert_eq!(visibility_verdict("t", row, "/b", true, true), Ok(()));
}

#[test]
fn registering_appends_missing_projects_and_keeps_other_elements() {
    let existing = br#"{"project-order":5,"electron-saved-workspace-roots":[1,"/a"]}"#;
    let written = register_projects(Some(&existing[..]), &["/a".to_owned(), "/b".to_owned()])
        .unwrap()
        .unwrap();
    let value: serde_json::Value = serde_json::from_slice(&written).unwrap();
    let roots = serde_json::to_string(&value["electron-saved-workspace-roots"]).unwrap();
    assert_eq!(roots, r#"[1,"/a","/b"]"#);
    let order = serde_json::to_string(&value["project-order"]).unwrap();
    assert_eq!(order, r#"["/a","/b"]"#);
    let state = serde_json::to_string(&value["electron-persisted-atom-state"]["project-order"]).unwrap();
    assert_eq!(state, r#"["/a","/b"]"#);
    assert!(register_projects(Some(&b"not json"[..]), &["/a".to_owned()]).is_err());
    assert!(register_projects(None, &[]).unwrap().is_none());
}

#[test]
fn content_fingerprint_is_the_hex_sha256_of_the_bytes() {
    assert_eq!(
        content_fingerprint(b""),
        "e3b0c44298fc1c149afbf4c8996fb92427ae41e4649b934ca495991b7852b855"
    );
    assert_eq!(
        content_fingerprint(b"abc"),
        "ba7816bf8f01cfea414140de5dae2223b00361a396177a9cb410ff61f20015ad"
    );
}

#[test]
fn import_takes_the_last_source_read_from_the_path() {
    let id = "aaaaaaaa-bbbb-cccc-dddd-eeeeeeeeeeee";
    let with_title = |title: &str| {
        let content = format!(
            "{{\"type\":\"session_meta\",\"payload\":{{\"id\":\"{id}\",\"cwd\":\"/old\"}}}}\n{{\"type\":\"event_msg\",\"payload\":{{\"type\":\"thread_name_updated\",\"thread_name\":\"{title}\"}}}}\n"
        );
        scan_rollout_content(content.into_bytes(), "/source/sessions/x.jsonl", "x.jsonl", None, false, &[]).unwrap()
    };
    let source = vec![with_title("earlier"), with_title("later")];
    let mut plan = planned(id);
    plan.action = MergeAction::Import;
    plan.source_path = "/source/sessions/x.jsonl".to_owned();
    plan.target_path = "/target/sessions/x.jsonl".to_owned();
    match thread_work(&plan, &source, &Vec::new()).unwrap() {
        ThreadWork::Write { bytes, .. } => {
            let text = String::from_utf8(bytes).unwrap();
            assert!(text.contains("later"));
            assert!(!text.contains("earlier"));
        }
        ThreadWork::Refresh { .. } => panic!("an import writes"),
    }
}

#[test]
fn synced_records_carry_their_own_id() {
    let target = vec![
        ("a".to_owned(), br#"{"id":"other","x":1}"#.to_vec()),
        ("b".to_owned(), b"[1,2]".to_vec()),
    ];
    let (index, _) = sync_imported(target, &Vec::new(), &[planned("a"), planned("b")], 100, "now");
    let entry = |k: usize| -> serde_json::Value { serde_json::from_slice(&index[k].1).unwrap() };
    assert_eq!(entry(0)["id"], "a");
    assert_eq!(entry(0)["x"], 1);
    assert_eq!(entry(1)["id"], "b");
}

#[test]
fn string_members_are_escaped_as_serde_json_writes_them() {
    let mut item = planned("q");
    item.thread.title = "say \"hi\"\n\u{1}\\ é".to_owned();
    let (index, _) = sync_imported(Vec::new(), &Vec::new(), &[item], 100, "now");
    let text = String::from_utf8(index[0].1.clone()).unwrap();
    assert!(text.contains(r#""thread_name":"say \"hi\"\n\u0001\\ é""#));
}
