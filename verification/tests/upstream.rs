use codex_migrate::html_export::{clean_user_message, html_escape};
use codex_migrate::merge::compare_contents;
use codex_migrate::model::{MergeAction, PlatformKind};
use codex_migrate::path_mapper::{history_only_path, map_path, normalize, parse_mapping};
use codex_migrate::rollout::{canonicalize_cwd, rewrite_cwd_bytes};

#[test]
fn escapes_html() {
    assert_eq!(html_escape("<a&b>"), "&lt;a&amp;b&gt;");
}

#[test]
fn filters_context_and_extracts_actual_request() {
    assert!(clean_user_message(
        "# AGENTS.md instructions for /tmp\n\n<INSTRUCTIONS>hidden</INSTRUCTIONS>"
    )
    .is_none());
    assert_eq!(
        clean_user_message(
            "# Applications mentioned by the user:\n<appshot />\n\n## My request for Codex:\n只保留这个请求"
        )
        .as_deref(),
        Some("只保留这个请求")
    );
}

#[test]
fn detects_prefix_and_conflict() {
    assert_eq!(
        compare_contents(b"abc", b"ab").0,
        MergeAction::ReplaceWithLonger
    );
    assert_eq!(
        compare_contents(b"ab", b"abc").0,
        MergeAction::KeepTargetLonger
    );
    assert_eq!(compare_contents(b"abc", b"abd").0, MergeAction::Conflict);
    assert_eq!(
        compare_contents(
            br#"{"type":"session_meta","payload":{"cwd":"/old"}}"#,
            br#"{"type":"session_meta","payload":{"cwd":"/new"}}"#
        )
        .0,
        MergeAction::SkipIdentical
    );
}

#[test]
fn longest_prefix_wins() {
    let mappings = vec![
        parse_mapping("/Users/a=D:/Users").unwrap(),
        parse_mapping("/Users/a/Projects=D:/Projects").unwrap(),
    ];
    let mapped = map_path(
        "/Users/a/Projects/demo",
        &mappings,
        &PlatformKind::Windows,
        "history",
        "id",
    );
    assert_eq!(normalize(&mapped), "D:/Projects/demo");
}

#[test]
fn converts_windows_drive_to_wsl() {
    let mappings = vec![parse_mapping("/Users/a=D:/Work").unwrap()];
    let mapped = map_path(
        "/Users/a/demo",
        &mappings,
        &PlatformKind::Wsl,
        "/tmp/history",
        "id",
    );
    assert_eq!(mapped, "/mnt/d/Work/demo");
}

#[test]
fn unresolved_path_uses_history_root() {
    let mapped = map_path(
        "C:/work/demo",
        &[],
        &PlatformKind::Linux,
        "/tmp/history",
        "abc",
    );
    assert_eq!(mapped, "/tmp/history/abc");
}

#[test]
fn windows_mapping_is_case_insensitive() {
    let mappings = vec![parse_mapping("C:/Users/A/Work=D:/Projects").unwrap()];
    let mapped = map_path(
        "c:/users/a/work/demo",
        &mappings,
        &PlatformKind::Windows,
        "history",
        "id",
    );
    assert_eq!(normalize(&mapped), "D:/Projects/demo");
}

#[test]
fn preserves_unc_paths_on_windows() {
    let mapped = map_path(
        r"\\server\share\demo",
        &[],
        &PlatformKind::Windows,
        "history",
        "id",
    );
    assert_eq!(normalize(&mapped), "//server/share/demo");
}

#[test]
fn history_path_is_stable_per_project() {
    let first = history_only_path("/history", "/Users/a/Project A");
    let second = history_only_path("/history", "/Users/a/Project A");
    assert_eq!(first, second);
    assert!(first.contains("Project_A"));
}

#[test]
fn rewrites_only_structured_cwd_fields() {
    let input = br#"{"type":"session_meta","payload":{"cwd":"/old","note":"/old"}}
{"type":"event_msg","payload":{"message":"/old"}}
"#;
    let (output, changed) = rewrite_cwd_bytes(input, "/new").unwrap();
    let text = String::from_utf8(output).unwrap();
    assert_eq!(changed, 1);
    assert!(text.contains("\"cwd\":\"/new\""));
    assert!(text.contains("\"note\":\"/old\""));
    assert!(text.contains("\"message\":\"/old\""));
}

#[test]
fn canonical_form_ignores_mapped_cwd() {
    let old = br#"{"type":"session_meta","payload":{"id":"1","cwd":"/old"}}"#;
    let new = br#"{"type":"session_meta","payload":{"id":"1","cwd":"C:\\new"}}"#;
    assert_eq!(canonicalize_cwd(old), canonicalize_cwd(new));
}
