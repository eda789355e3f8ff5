use codex_migrate::app_state::{
    apply_result, preview_counts, AppState, FollowUp, ImportStep, TaskResult,
};
use codex_migrate::model::{
    DiagnosticReport, ImportPlan, MergeAction, PlannedThread, PlatformKind, SourceCatalog, SourceProject,
    SourceSession, ThreadRecord,
};
use codex_migrate::operations::{ExportSummary, ImportSummary, TransactionSummary};
use codex_migrate::selection::CheckState;

fn record(id: &str, cwd: &str) -> ThreadRecord {
    ThreadRecord {
        id: id.to_owned(),
        title: id.to_owned(),
        created_at: 0,
        updated_at: 0,
        cwd: cwd.to_owned(),
        source: "test".to_owned(),
        thread_source: None,
        model_provider: "openai".to_owned(),
        cli_version: String::new(),
        archived: false,
        archive_path: format!("sessions/{id}.jsonl"),
        sha256: String::new(),
        byte_len: 0,
        first_user_message: String::new(),
        sandbox_policy: None,
        approval_mode: None,
        model: None,
        reasoning_effort: None,
    }
}

fn empty_state() -> AppState {
    AppState {
        step: ImportStep::Choose,
        catalog: None,
        projects: Vec::new(),
        repair_projects: Vec::new(),
        html_projects: Vec::new(),
        parent_source: String::new(),
        plan: None,
        diagnostic: None,
        transactions: Vec::new(),
        selected_transaction: None,
        selected_transactions: Vec::new(),
        status: String::new(),
        logs: Vec::new(),
        error: None,
        success: None,
        import_completion: None,
        completion_notice: None,
    }
}

fn catalog() -> SourceCatalog {
    let project = |cwd: &str, ids: &[&str]| SourceProject {
        original_cwd: cwd.to_owned(),
        suggested_target: None,
        sessions: ids
            .iter()
            .map(|id| SourceSession {
                thread: record(id, cwd),
                source_path: format!("/source/{id}.jsonl"),
            })
            .collect(),
    };
    SourceCatalog {
        source_codex_home: "/source".to_owned(),
        source_platform: PlatformKind::Linux,
        source_codex_version: None,
        projects: vec![
            project("/old/projects/a", &["one", "two"]),
            project("/old/projects/b", &["three"]),
        ],
        thread_count: 3,
    }
}

fn planned(id: &str, action: MergeAction) -> PlannedThread {
    PlannedThread {
        thread: record(id, "/old/projects/a"),
        source_path: String::new(),
        mapped_cwd: "/new/a".to_owned(),
        history_only: false,
        target_path: String::new(),
        action,
        reason: String::new(),
    }
}

#[test]
fn scan_lists_projects_selected_and_moves_to_selection() {
    let mut state = empty_state();
    let next = apply_result(&mut state, TaskResult::Scan(Ok(catalog())), false);
    assert_eq!(next, FollowUp::Nothing);
    assert_eq!(state.projects.len(), 2);
    assert_eq!(state.projects[0].state(), CheckState::All);
    assert_eq!(state.parent_source, "/old/projects");
    assert_eq!(state.status, "Loaded 2 projects、3 sessions");
    assert_eq!(state.success.as_deref(), Some("Loaded 2 projects、3 sessions"));
    assert_eq!(state.step, ImportStep::Select);
    assert!(state.catalog.is_some());
}

#[test]
fn repair_scan_selects_only_missing_projects() {
    let mut state = empty_state();
    apply_result(
        &mut state,
        TaskResult::RepairScan(Ok(catalog()), vec!["/old/projects/a".to_owned()]),
        true,
    );
    assert_eq!(state.repair_projects[0].state(), CheckState::Clear);
    assert_eq!(state.repair_projects[1].state(), CheckState::All);
    assert_eq!(state.status, "已读取 2，个项目 3");
}

#[test]
fn plan_with_conflict_deselects_its_sessions() {
    let mut state = empty_state();
    apply_result(&mut state, TaskResult::Scan(Ok(catalog())), false);
    let plan = ImportPlan {
        source_codex_home: "/source".to_owned(),
        codex_home: "/target".to_owned(),
        threads: vec![
            planned("one", MergeAction::Conflict),
            planned("two", MergeAction::Import),
        ],
        conflicts: 1,
    };
    apply_result(&mut state, TaskResult::Plan(Ok(plan)), false);
    assert!(!state.projects[0].sessions[0].selected);
    assert!(state.projects[0].sessions[1].selected);
    assert_eq!(
        state.error.as_deref(),
        Some("1 divergent sessions were deselected; preview again")
    );
    assert!(state.plan.is_none());
    assert_eq!(state.step, ImportStep::Select);
}

#[test]
fn plan_without_conflict_goes_to_preview() {
    let mut state = empty_state();
    let plan = ImportPlan {
        source_codex_home: "/source".to_owned(),
        codex_home: "/target".to_owned(),
        threads: vec![planned("one", MergeAction::Import)],
        conflicts: 0,
    };
    apply_result(&mut state, TaskResult::Plan(Ok(plan)), false);
    assert_eq!(state.status, "Preview ready: 1 sessions");
    assert_eq!(state.step, ImportStep::Preview);
    assert!(state.plan.is_some());
}

#[test]
fn import_selects_its_transaction_and_refreshes() {
    let mut state = empty_state();
    let summary = ImportSummary {
        transaction_id: "20260619T040000Z-abc".to_owned(),
        imported: 2,
        refreshed: 1,
        skipped: 1,
    };
    let next = apply_result(&mut state, TaskResult::Import(Ok(summary)), false);
    assert_eq!(next, FollowUp::RefreshTransactions);
    assert_eq!(state.status, "Import completed: 2 new, 1 indexes refreshed");
    assert_eq!(
        state.success.as_deref(),
        Some("Import completed: 2 new, 1 indexes refreshed. Rollback transaction: 20260619T040000Z-abc")
    );
    assert_eq!(state.selected_transaction.as_deref(), Some("20260619T040000Z-abc"));
}

#[test]
fn failed_task_is_logged_and_shown() {
    let mut state = empty_state();
    let next = apply_result(&mut state, TaskResult::Export(Err("disk full".to_owned())), false);
    assert_eq!(next, FollowUp::Nothing);
    assert_eq!(state.status, "Operation failed");
    assert_eq!(state.logs, vec!["disk full".to_owned()]);
    assert_eq!(state.error.as_deref(), Some("disk full"));
}

#[test]
fn backup_reports_its_folder() {
    let mut state = empty_state();
    let summary = ExportSummary { output: "/backups/.codex".to_owned(), thread_count: 4 };
    apply_result(&mut state, TaskResult::Export(Ok(summary)), false);
    assert_eq!(state.status, "Exported 4 sessions");
    assert_eq!(state.success.as_deref(), Some("Exported 4 sessions：/backups/.codex"));
    let notice = state.completion_notice.unwrap();
    assert_eq!(notice.title, "Backup export completed");
    assert_eq!(notice.detail, "/backups/.codex");
}

fn transaction(id: &str) -> TransactionSummary {
    TransactionSummary {
        id: id.to_owned(),
        created_at: String::new(),
        source_codex_home: String::new(),
        completed: true,
    }
}

#[test]
fn listing_transactions_keeps_or_replaces_the_selection() {
    let mut state = empty_state();
    state.selected_transaction = Some("gone".to_owned());
    apply_result(
        &mut state,
        TaskResult::Transactions(Ok(vec![transaction("b"), transaction("a")])),
        false,
    );
    assert_eq!(state.selected_transaction.as_deref(), Some("b"));
    assert_eq!(state.selected_transactions, vec!["a".to_owned(), "b".to_owned()]);
    state.selected_transaction = Some("a".to_owned());
    apply_result(
        &mut state,
        TaskResult::Transactions(Ok(vec![transaction("b"), transaction("a")])),
        false,
    );
    assert_eq!(state.selected_transaction.as_deref(), Some("a"));
}

#[test]
fn rollback_and_delete_need_a_selection() {
    let mut state = empty_state();
    assert!(state.rollback_request(false).is_none());
    assert_eq!(state.error.as_deref(), Some("Select a rollback transaction first"));
    assert!(state.delete_request(true).is_none());
    assert_eq!(state.error.as_deref(), Some("请至少选择一个要删除的回滚事务"));
    state.selected_transactions = vec!["a".to_owned()];
    assert_eq!(state.delete_request(false), Some(vec!["a".to_owned()]));
    let next = apply_result(&mut state, TaskResult::DeleteTransactions(Ok(1)), false);
    assert_eq!(next, FollowUp::RefreshTransactions);
    assert!(state.selected_transactions.is_empty());
    assert_eq!(state.status, "Deleted 1 rollback backups");
}

#[test]
fn diagnose_reports_issue_count() {
    let report = |issues: Vec<String>| DiagnosticReport {
        codex_home: String::new(),
        sqlite_home: String::new(),
        codex_executable: None,
        codex_version: None,
        platform: PlatformKind::Linux,
        wsl: false,
        state_db: None,
        schema_version: None,
        active_rollouts: 0,
        archived_rollouts: 0,
        database_threads: 0,
        integrity: None,
        issues,
    };
    let mut state = empty_state();
    apply_result(&mut state, TaskResult::Diagnose(Ok(report(vec![]))), false);
    assert_eq!(state.status, "Diagnostics completed; no migration issues found");
    apply_result(&mut state, TaskResult::Diagnose(Ok(report(vec!["x".to_owned()]))), false);
    assert_eq!(state.status, "Diagnostics found 1 issues");
}

#[test]
fn path_problem_filter_detects_missing_project_folder() {
    let mut state = empty_state();
    let mut project = catalog().projects[0].clone();
    project.original_cwd = "/definitely/missing/codex-migrate-project".to_owned();
    let c = SourceCatalog { projects: vec![project], thread_count: 2, ..catalog() };
    apply_result(&mut state, TaskResult::Scan(Ok(c)), false);
    assert_eq!(state.project_count(), 1);
    assert_eq!(state.pending_mapping_count(&[]), 1);
    assert_eq!(
        state.pending_mapping_count(&["/somewhere/else".to_owned()]),
        1
    );
    state.projects[0].target_path = "/new/place".to_owned();
    assert_eq!(state.pending_mapping_count(&["/new/place".to_owned()]), 0);
}

#[test]
fn preview_counts_split_written_and_skipped() {
    let plan = ImportPlan {
        source_codex_home: "/source".to_owned(),
        codex_home: "/target".to_owned(),
        threads: vec![
            planned("one", MergeAction::Import),
            planned("two", MergeAction::SkipIdentical),
            planned("three", MergeAction::ReplaceWithLonger),
            planned("four", MergeAction::KeepTargetLonger),
        ],
        conflicts: 0,
    };
    assert_eq!(preview_counts(&plan), (2, 2));
}
