//! The state that the desktop app keeps between its background tasks, and
//! what the result of a finished task does to it: which lists it shows,
//! what it selects, and the messages it reports.
use crate::html_export::HtmlExportSummary;
use crate::merge::{contains_string, has_string};
use crate::model::{DiagnosticReport, ImportPlan, MergeAction, PlannedThread, SourceCatalog, SourceProject};
use crate::operations::{ExportSummary, ImportSummary, TransactionSummary};
use crate::selection::{
    common_parent, common_parent_spec, project_to_ui, set_projects_selected, short_id, tr, UiProject,
    UiSession,
};
use crate::sqlite_adapter::{decimal, push_decimal};
use crate::text::{ascending, extend_str, has_key, insert_sorted, string_of, views};
use vstd::prelude::*;

verus! {

/// The step of the import page.
#[derive(Debug, Clone, Copy, PartialEq, Eq, Structural)]
pub enum ImportStep {
    Choose,
    Select,
    Preview,
}

/// A notice shown when a long task has finished.
#[derive(Debug, Clone)]
pub struct CompletionNotice {
    pub title: String,
    pub message: String,
    pub detail: String,
}

/// What the app keeps between its tasks.
#[derive(Debug, Clone)]
pub struct AppState {
    pub step: ImportStep,
    pub catalog: Option<SourceCatalog>,
    pub projects: Vec<UiProject>,
    pub repair_projects: Vec<UiProject>,
    pub html_projects: Vec<UiProject>,
    pub parent_source: String,
    pub plan: Option<ImportPlan>,
    pub diagnostic: Option<DiagnosticReport>,
    pub transactions: Vec<TransactionSummary>,
    pub selected_transaction: Option<String>,
    pub selected_transactions: Vec<String>,
    pub status: String,
    pub logs: Vec<String>,
    pub error: Option<String>,
    pub success: Option<String>,
    pub import_completion: Option<ImportSummary>,
    pub completion_notice: Option<CompletionNotice>,
}

/// The result of a finished background task; an error is its message.
pub enum TaskResult {
    /// The catalog of a source home.
    Scan(Result<SourceCatalog, String>),
    /// The catalog of this device's home, and the project folders that
    /// exist here.
    RepairScan(Result<SourceCatalog, String>, Vec<String>),
    /// The catalog of this device's home, for HTML export.
    HtmlScan(Result<SourceCatalog, String>),
    /// An import plan.
    Plan(Result<ImportPlan, String>),
    /// A finished import.
    Import(Result<ImportSummary, String>),
    /// A finished repair of this device's project folders.
    Rebind(Result<ImportSummary, String>),
    /// A finished HTML export, and the folder of its first page.
    HtmlExport(Result<HtmlExportSummary, String>, Option<String>),
    /// A finished backup.
    Export(Result<ExportSummary, String>),
    /// A health report.
    Diagnose(Result<DiagnosticReport, String>),
    /// The health report of a full verification that passed.
    Verify(Result<DiagnosticReport, String>),
    /// The rollback transactions, newest first.
    Transactions(Result<Vec<TransactionSummary>, String>),
    /// The id of a transaction that was rolled back.
    Rollback(Result<String, String>),
    /// The number of deleted transactions.
    DeleteTransactions(Result<usize, String>),
}

/// What the app starts next.
#[derive(Debug, Clone, Copy, PartialEq, Eq, Structural)]
pub enum FollowUp {
    Nothing,
    RefreshTransactions,
}

/// The fields of the state, to say which of them a task changes.
pub enum Field {
    Step,
    Catalog,
    Projects,
    RepairProjects,
    HtmlProjects,
    ParentSource,
    Plan,
    Diagnostic,
    Transactions,
    SelectedTransaction,
    SelectedTransactions,
    Status,
    Logs,
    Error,
    Success,
    ImportCompletion,
    CompletionNotice,
}

/// `b` holds the same as `a` in every field but the touched ones.
pub open spec fn keeps_others(b: AppState, a: AppState, touched: Set<Field>) -> bool {
    &&& !touched.contains(Field::Step) ==> b.step == a.step
    &&& !touched.contains(Field::Catalog) ==> b.catalog == a.catalog
    &&& !touched.contains(Field::Projects) ==> b.projects == a.projects
    &&& !touched.contains(Field::RepairProjects) ==> b.repair_projects == a.repair_projects
    &&& !touched.contains(Field::HtmlProjects) ==> b.html_projects == a.html_projects
    &&& !touched.contains(Field::ParentSource) ==> b.parent_source == a.parent_source
    &&& !touched.contains(Field::Plan) ==> b.plan == a.plan
    &&& !touched.contains(Field::Diagnostic) ==> b.diagnostic == a.diagnostic
    &&& !touched.contains(Field::Transactions) ==> b.transactions == a.transactions
    &&& !touched.contains(Field::SelectedTransaction) ==> b.selected_transaction
        == a.selected_transaction
    &&& !touched.contains(Field::SelectedTransactions) ==> b.selected_transactions
        == a.selected_transactions
    &&& !touched.contains(Field::Status) ==> b.status == a.status
    &&& !touched.contains(Field::Logs) ==> b.logs == a.logs
    &&& !touched.contains(Field::Error) ==> b.error == a.error
    &&& !touched.contains(Field::Success) ==> b.success == a.success
    &&& !touched.contains(Field::ImportCompletion) ==> b.import_completion == a.import_completion
    &&& !touched.contains(Field::CompletionNotice) ==> b.completion_notice == a.completion_notice
}

// ---------------------------------------------------------------------------
// Messages

/// The text in the app's language.
pub open spec fn lang(zh: bool, chinese: Seq<char>, english: Seq<char>) -> Seq<char> {
    if zh {
        chinese
    } else {
        english
    }
}

fn push_lang(out: &mut Vec<char>, zh: bool, chinese: &str, english: &str)
    ensures
        final(out)@ == old(out)@ + lang(zh, chinese@, english@),
{
    extend_str(out, tr(zh, chinese, english));
}

pub open spec fn failed_status(zh: bool) -> Seq<char> {
    lang(zh, "操作失败"@, "Operation failed"@)
}

pub open spec fn scan_status(zh: bool, projects: nat, sessions: nat) -> Seq<char> {
    lang(zh, "已读取"@, "Loaded"@) + " "@ + decimal(projects) + " "@ + lang(zh, "个项目"@, "projects"@)
        + "、"@ + decimal(sessions) + " "@ + lang(zh, "个会话"@, "sessions"@)
}

pub open spec fn repair_status(zh: bool, projects: nat, sessions: nat) -> Seq<char> {
    lang(zh, "已读取"@, "Loaded"@) + " "@ + decimal(projects) + "，"@ + lang(zh, "个项目"@, "projects"@)
        + " "@ + decimal(sessions)
}

pub open spec fn html_scan_status(zh: bool, sessions: nat) -> Seq<char> {
    lang(zh, "已读取"@, "Loaded"@) + " "@ + decimal(sessions) + " "@ + lang(
        zh,
        "个本机会话"@,
        "local sessions"@,
    )
}

pub open spec fn conflict_error(zh: bool, n: nat) -> Seq<char> {
    decimal(n) + " "@ + lang(
        zh,
        "个分叉冲突会话已自动取消选择，请重新预览"@,
        "divergent sessions were deselected; preview again"@,
    )
}

pub open spec fn preview_status(zh: bool, n: nat) -> Seq<char> {
    lang(zh, "预览完成"@, "Preview ready"@) + ": "@ + decimal(n) + " "@ + lang(zh, "个会话"@, "sessions"@)
}

pub open spec fn import_status(zh: bool, imported: nat, refreshed: nat) -> Seq<char> {
    lang(zh, "导入完成"@, "Import completed"@) + ": "@ + decimal(imported) + " "@ + lang(
        zh,
        "个新增"@,
        "new"@,
    ) + ", "@ + decimal(refreshed) + " "@ + lang(zh, "个索引已刷新"@, "indexes refreshed"@)
}

pub open spec fn import_success(zh: bool, status: Seq<char>, id: Seq<char>) -> Seq<char> {
    status + ". "@ + lang(zh, "回滚事务"@, "Rollback transaction"@) + ": "@ + id
}

pub open spec fn rebind_status(zh: bool, n: nat) -> Seq<char> {
    lang(zh, "路径修复完成"@, "Path repair completed"@) + "："@ + decimal(n)
}

pub open spec fn exported_message(zh: bool, n: nat, chinese: Seq<char>, english: Seq<char>) -> Seq<
    char,
> {
    lang(zh, "已导出"@, "Exported"@) + " "@ + decimal(n) + " "@ + lang(zh, chinese, english)
}

pub open spec fn diagnose_status(zh: bool, issues: nat) -> Seq<char> {
    if issues == 0 {
        lang(
            zh,
            "诊断完成，未发现迁移问题"@,
            "Diagnostics completed; no migration issues found"@,
        )
    } else {
        lang(zh, "诊断完成，发现"@, "Diagnostics found"@) + " "@ + decimal(issues) + " "@ + lang(
            zh,
            "个问题"@,
            "issues"@,
        )
    }
}

pub open spec fn verify_status(zh: bool) -> Seq<char> {
    lang(zh, "完整验证通过"@, "Full verification passed"@)
}

/// `s` is the short form of the id (see [`short_id`]).
pub open spec fn is_short_id(s: Seq<char>, id: Seq<char>) -> bool {
    if vstd::utf8::encode_utf8(id).len() > 24 && vstd::utf8::is_char_boundary(
        vstd::utf8::encode_utf8(id),
        24,
    ) {
        vstd::utf8::encode_utf8(s) == vstd::utf8::encode_utf8(id).subrange(0, 24)
    } else {
        s == id
    }
}

pub open spec fn rollback_status(zh: bool, short: Seq<char>) -> Seq<char> {
    lang(zh, "已回滚事务"@, "Rolled back transaction"@) + " "@ + short
}

pub open spec fn deleted_status(zh: bool, n: nat) -> Seq<char> {
    lang(zh, "已删除"@, "Deleted"@) + " "@ + decimal(n) + " "@ + lang(zh, "个回滚备份"@, "rollback backups"@)
}

fn failed_text(zh: bool) -> (s: String)
    ensures
        s@ == failed_status(zh),
{
    tr(zh, "操作失败", "Operation failed").to_owned()
}

fn scan_text(zh: bool, projects: usize, sessions: usize) -> (s: String)
    ensures
        s@ == scan_status(zh, projects as nat, sessions as nat),
{
    let mut o: Vec<char> = Vec::new();
    push_lang(&mut o, zh, "已读取", "Loaded");
    extend_str(&mut o, " ");
    push_decimal(&mut o, projects);
    extend_str(&mut o, " ");
    push_lang(&mut o, zh, "个项目", "projects");
    extend_str(&mut o, "、");
    push_decimal(&mut o, sessions);
    extend_str(&mut o, " ");
    push_lang(&mut o, zh, "个会话", "sessions");
    assert(o@ =~= scan_status(zh, projects as nat, sessions as nat));
    string_of(o.as_slice())
}

fn repair_text(zh: bool, projects: usize, sessions: usize) -> (s: String)
    ensures
        s@ == repair_status(zh, projects as nat, sessions as nat),
{
    let mut o: Vec<char> = Vec::new();
    push_lang(&mut o, zh, "已读取", "Loaded");
    extend_str(&mut o, " ");
    push_decimal(&mut o, projects);
    extend_str(&mut o, "，");
    push_lang(&mut o, zh, "个项目", "projects");
    extend_str(&mut o, " ");
    push_decimal(&mut o, sessions);
    assert(o@ =~= repair_status(zh, projects as nat, sessions as nat));
    string_of(o.as_slice())
}

fn html_scan_text(zh: bool, sessions: usize) -> (s: String)
    ensures
        s@ == html_scan_status(zh, sessions as nat),
{
    let mut o: Vec<char> = Vec::new();
    push_lang(&mut o, zh, "已读取", "Loaded");
    extend_str(&mut o, " ");
    push_decimal(&mut o, sessions);
    extend_str(&mut o, " ");
    push_lang(&mut o, zh, "个本机会话", "local sessions");
    assert(o@ =~= html_scan_status(zh, sessions as nat));
    string_of(o.as_slice())
}

fn conflict_text(zh: bool, n: usize) -> (s: String)
    ensures
        s@ == conflict_error(zh, n as nat),
{
    let mut o: Vec<char> = Vec::new();
    push_decimal(&mut o, n);
    extend_str(&mut o, " ");
    push_lang(
        &mut o,
        zh,
        "个分叉冲突会话已自动取消选择，请重新预览",
        "divergent sessions were deselected; preview again",
    );
    assert(o@ =~= conflict_error(zh, n as nat));
    string_of(o.as_slice())
}

fn preview_text(zh: bool, n: usize) -> (s: String)
    ensures
        s@ == preview_status(zh, n as nat),
{
    let mut o: Vec<char> = Vec::new();
    push_lang(&mut o, zh, "预览完成", "Preview ready");
    extend_str(&mut o, ": ");
    push_decimal(&mut o, n);
    extend_str(&mut o, " ");
    push_lang(&mut o, zh, "个会话", "sessions");
    assert(o@ =~= preview_status(zh, n as nat));
    string_of(o.as_slice())
}

fn import_text(zh: bool, imported: usize, refreshed: usize) -> (s: String)
    ensures
        s@ == import_status(zh, imported as nat, refreshed as nat),
{
    let mut o: Vec<char> = Vec::new();
    push_lang(&mut o, zh, "导入完成", "Import completed");
    extend_str(&mut o, ": ");
    push_decimal(&mut o, imported);
    extend_str(&mut o, " ");
    push_lang(&mut o, zh, "个新增", "new");
    extend_str(&mut o, ", ");
    push_decimal(&mut o, refreshed);
    extend_str(&mut o, " ");
    push_lang(&mut o, zh, "个索引已刷新", "indexes refreshed");
    assert(o@ =~= import_status(zh, imported as nat, refreshed as nat));
    string_of(o.as_slice())
}

fn import_success_text(zh: bool, status: &str, id: &str) -> (s: String)
    ensures
        s@ == import_success(zh, status@, id@),
{
    let mut o: Vec<char> = Vec::new();
    extend_str(&mut o, status);
    extend_str(&mut o, ". ");
    push_lang(&mut o, zh, "回滚事务", "Rollback transaction");
    extend_str(&mut o, ": ");
    extend_str(&mut o, id);
    assert(o@ =~= import_success(zh, status@, id@));
    string_of(o.as_slice())
}

fn rebind_text(zh: bool, n: usize) -> (s: String)
    ensures
        s@ == rebind_status(zh, n as nat),
{
    let mut o: Vec<char> = Vec::new();
    push_lang(&mut o, zh, "路径修复完成", "Path repair completed");
    extend_str(&mut o, "：");
    push_decimal(&mut o, n);
    assert(o@ =~= rebind_status(zh, n as nat));
    string_of(o.as_slice())
}

fn exported_text(zh: bool, n: usize, chinese: &str, english: &str) -> (s: String)
    ensures
        s@ == exported_message(zh, n as nat, chinese@, english@),
{
    let mut o: Vec<char> = Vec::new();
    push_lang(&mut o, zh, "已导出", "Exported");
    extend_str(&mut o, " ");
    push_decimal(&mut o, n);
    extend_str(&mut o, " ");
    push_lang(&mut o, zh, chinese, english);
    assert(o@ =~= exported_message(zh, n as nat, chinese@, english@));
    string_of(o.as_slice())
}

fn joined_text(a: &str, sep: &str, b: &str) -> (s: String)
    ensures
        s@ == a@ + sep@ + b@,
{
    let mut o: Vec<char> = Vec::new();
    extend_str(&mut o, a);
    extend_str(&mut o, sep);
    extend_str(&mut o, b);
    assert(o@ =~= a@ + sep@ + b@);
    string_of(o.as_slice())
}

fn diagnose_text(zh: bool, issues: usize) -> (s: String)
    ensures
        s@ == diagnose_status(zh, issues as nat),
{
    if issues == 0 {
        return tr(
            zh,
            "诊断完成，未发现迁移问题",
            "Diagnostics completed; no migration issues found",
        ).to_owned();
    }
    let mut o: Vec<char> = Vec::new();
    push_lang(&mut o, zh, "诊断完成，发现", "Diagnostics found");
    extend_str(&mut o, " ");
    push_decimal(&mut o, issues);
    extend_str(&mut o, " ");
    push_lang(&mut o, zh, "个问题", "issues");
    assert(o@ =~= diagnose_status(zh, issues as nat));
    string_of(o.as_slice())
}

fn deleted_text(zh: bool, n: usize) -> (s: String)
    ensures
        s@ == deleted_status(zh, n as nat),
{
    let mut o: Vec<char> = Vec::new();
    push_lang(&mut o, zh, "已删除", "Deleted");
    extend_str(&mut o, " ");
    push_decimal(&mut o, n);
    extend_str(&mut o, " ");
    push_lang(&mut o, zh, "个回滚备份", "rollback backups");
    assert(o@ =~= deleted_status(zh, n as nat));
    string_of(o.as_slice())
}

// ---------------------------------------------------------------------------
// Failures

/// The error message of a task that failed.
pub open spec fn task_error(r: TaskResult) -> Option<String> {
    match r {
        TaskResult::Scan(Err(e)) => Some(e),
        TaskResult::RepairScan(Err(e), _) => Some(e),
        TaskResult::HtmlScan(Err(e)) => Some(e),
        TaskResult::Plan(Err(e)) => Some(e),
        TaskResult::Import(Err(e)) => Some(e),
        TaskResult::Rebind(Err(e)) => Some(e),
        TaskResult::HtmlExport(Err(e), _) => Some(e),
        TaskResult::Export(Err(e)) => Some(e),
        TaskResult::Diagnose(Err(e)) => Some(e),
        TaskResult::Verify(Err(e)) => Some(e),
        TaskResult::Transactions(Err(e)) => Some(e),
        TaskResult::Rollback(Err(e)) => Some(e),
        TaskResult::DeleteTransactions(Err(e)) => Some(e),
        _ => None,
    }
}

/// A failed task: the status says so, the message is logged and shown.
pub open spec fn failed(b: AppState, a: AppState, e: String, zh: bool) -> bool {
    &&& b.status@ == failed_status(zh)
    &&& b.logs@ == a.logs@.push(e)
    &&& b.error == Some(e)
    &&& keeps_others(b, a, set![Field::Status, Field::Logs, Field::Error])
}

fn fail(state: &mut AppState, error: String, zh: bool)
    ensures
        failed(*final(state), *old(state), error, zh),
{
    state.status = failed_text(zh);
    state.logs.push(error.clone());
    state.error = Some(error);
}

// ---------------------------------------------------------------------------
// Lists of projects

/// `u` lists the project `p` as the app first shows it, with every session
/// selected when `selected`, else none.
pub open spec fn ui_of(u: UiProject, p: SourceProject, selected: bool) -> bool {
    &&& u.original_cwd == p.original_cwd
    &&& u.target_path@ == match p.suggested_target {
        Some(t) => t@,
        None => Seq::<char>::empty(),
    }
    &&& !u.history_only
    &&& u.expanded
    &&& u.sessions@.len() == p.sessions@.len()
    &&& forall|i: int|
        0 <= i < u.sessions@.len() ==> (#[trigger] u.sessions@[i]).selected == selected
            && u.sessions@[i].source.thread == p.sessions@[i].thread
            && u.sessions@[i].source.source_path == p.sessions@[i].source_path
}

/// The project's folder does not exist on this device.
pub open spec fn missing_here(p: SourceProject, present_dirs: Seq<String>) -> bool {
    !has_string(present_dirs, p.original_cwd@)
}

/// How a freshly listed project is selected.
pub enum Picking<'a> {
    /// Every session.
    All,
    /// No session.
    Clear,
    /// Every session of a project whose folder is not among these.
    Missing(&'a [String]),
}

pub open spec fn picks(pick: Picking, p: SourceProject) -> bool {
    match pick {
        Picking::All => true,
        Picking::Clear => false,
        Picking::Missing(present) => missing_here(p, present@),
    }
}

/// `us` lists the projects `ps`, in order, selected as `pick` says.
pub open spec fn lists(us: Seq<UiProject>, ps: Seq<SourceProject>, pick: Picking) -> bool {
    &&& us.len() == ps.len()
    &&& forall|i: int| 0 <= i < us.len() ==> ui_of(#[trigger] us[i], ps[i], picks(pick, ps[i]))
}

fn list_projects(projects: &Vec<SourceProject>, pick: Picking) -> (us: Vec<UiProject>)
    ensures
        lists(us@, projects@, pick),
{
    let mut us: Vec<UiProject> = Vec::new();
    let mut i: usize = 0;
    while i < projects.len()
        invariant
            i <= projects@.len(),
            us@.len() == i,
            forall|k: int| 0 <= k < i ==> ui_of(#[trigger] us@[k], projects@[k], picks(pick, projects@[k])),
        decreases projects@.len() - i,
    {
        let mut u = project_to_ui(&projects[i]);
        match pick {
            Picking::All => {},
            Picking::Clear => u.set_selected(false),
            Picking::Missing(present) => {
                let here = contains_string(present, projects[i].original_cwd.as_str());
                u.set_selected(!here);
            },
        }
        us.push(u);
        i += 1;
    }
    us
}

/// The deepest folder that holds every listed project, or nothing.
pub open spec fn parent_of(us: Seq<UiProject>) -> Seq<char> {
    match common_parent_spec(us.map_values(|p: UiProject| p.original_cwd@)) {
        Some(s) => s,
        None => Seq::<char>::empty(),
    }
}

fn parent_text(us: &Vec<UiProject>) -> (s: String)
    ensures
        s@ == parent_of(us@),
{
    let mut folders: Vec<String> = Vec::new();
    let mut i: usize = 0;
    while i < us.len()
        invariant
            i <= us@.len(),
            folders@.len() == i,
            forall|k: int| 0 <= k < i ==> (#[trigger] folders@[k])@ == us@[k].original_cwd@,
        decreases us@.len() - i,
    {
        folders.push(us[i].original_cwd.clone());
        i += 1;
    }
    assert(views(folders@) =~= us@.map_values(|p: UiProject| p.original_cwd@));
    match common_parent(folders.as_slice()) {
        Some(p) => p,
        None => String::new(),
    }
}

// ---------------------------------------------------------------------------
// Conflicts

/// Some conflicting entry of the plan has the thread id `id`.
pub open spec fn is_conflict_id(threads: Seq<PlannedThread>, id: Seq<char>) -> bool {
    exists|m: int|
        0 <= m < threads.len() && (#[trigger] threads[m]).action == MergeAction::Conflict
            && threads[m].thread.id@ == id
}

fn conflict_ids(threads: &Vec<PlannedThread>) -> (ids: Vec<String>)
    ensures
        ascending(ids@),
        forall|x: Seq<char>| #[trigger] has_key(ids@, x) <==> is_conflict_id(threads@, x),
{
    let mut ids: Vec<String> = Vec::new();
    let mut i: usize = 0;
    while i < threads.len()
        invariant
            i <= threads@.len(),
            ascending(ids@),
            forall|x: Seq<char>| #[trigger] has_key(ids@, x) <==> is_conflict_id(threads@.take(i as int), x),
        decreases threads@.len() - i,
    {
        let ghost before = threads@.take(i as int);
        let ghost after = threads@.take(i + 1);
        assert(after.drop_last() =~= before);
        if threads[i].action == MergeAction::Conflict {
            insert_sorted(&mut ids, threads[i].thread.id.clone());
            assert forall|x: Seq<char>| #[trigger] has_key(ids@, x) <==> is_conflict_id(after, x) by {
                if is_conflict_id(after, x) {
                    let m = choose|m: int|
                        0 <= m < after.len() && (#[trigger] after[m]).action == MergeAction::Conflict
                            && after[m].thread.id@ == x;
                    if m < i {
                        assert(before[m] == after[m]);
                    }
                }
                if is_conflict_id(before, x) {
                    let m = choose|m: int|
                        0 <= m < before.len() && (#[trigger] before[m]).action == MergeAction::Conflict
                            && before[m].thread.id@ == x;
                    assert(after[m] == before[m]);
                }
                if x == threads@[i as int].thread.id@ {
                    assert(after[i as int] == threads@[i as int]);
                }
            }
        } else {
            assert forall|x: Seq<char>| #[trigger] has_key(ids@, x) <==> is_conflict_id(after, x) by {
                if is_conflict_id(after, x) {
                    let m = choose|m: int|
                        0 <= m < after.len() && (#[trigger] after[m]).action == MergeAction::Conflict
                            && after[m].thread.id@ == x;
                    assert(m < i);
                    assert(before[m] == after[m]);
                }
                if is_conflict_id(before, x) {
                    let m = choose|m: int|
                        0 <= m < before.len() && (#[trigger] before[m]).action == MergeAction::Conflict
                            && before[m].thread.id@ == x;
                    assert(after[m] == before[m]);
                }
            }
        }
        i += 1;
    }
    assert(threads@.take(threads@.len() as int) =~= threads@);
    ids
}

/// `b` is `a` with every session of a conflicting thread deselected.
pub open spec fn deselected(b: Seq<UiProject>, a: Seq<UiProject>, threads: Seq<PlannedThread>) -> bool {
    &&& b.len() == a.len()
    &&& forall|p: int|
        0 <= p < b.len() ==> {
            let (x, y) = (#[trigger] b[p], a[p]);
            &&& x.original_cwd == y.original_cwd
            &&& x.target_path == y.target_path
            &&& x.history_only == y.history_only
            &&& x.expanded == y.expanded
            &&& x.sessions@.len() == y.sessions@.len()
            &&& forall|s: int|
                0 <= s < x.sessions@.len() ==> (#[trigger] x.sessions@[s]).source == y.sessions@[s].source
                    && x.sessions@[s].selected == (y.sessions@[s].selected && !is_conflict_id(
                    threads,
                    y.sessions@[s].source.thread.id@,
                ))
        }
}

fn deselect_sessions(sessions: &mut Vec<UiSession>, ids: &Vec<String>)
    ensures
        final(sessions)@.len() == old(sessions)@.len(),
        forall|s: int|
            0 <= s < final(sessions)@.len() ==> (#[trigger] final(sessions)@[s]).source == old(
                sessions,
            )@[s].source && final(sessions)@[s].selected == (old(sessions)@[s].selected && !has_key(
                ids@,
                old(sessions)@[s].source.thread.id@,
            )),
{
    let mut s: usize = 0;
    while s < sessions.len()
        invariant
            s <= sessions@.len(),
            sessions@.len() == old(sessions)@.len(),
            forall|k: int| s <= k < sessions@.len() ==> #[trigger] sessions@[k] == old(sessions)@[k],
            forall|k: int|
                0 <= k < s ==> (#[trigger] sessions@[k]).source == old(sessions)@[k].source
                    && sessions@[k].selected == (old(sessions)@[k].selected && !has_key(
                    ids@,
                    old(sessions)@[k].source.thread.id@,
                )),
        decreases sessions@.len() - s,
    {
        let mut session = sessions.remove(s);
        if contains_string(ids.as_slice(), session.source.thread.id.as_str()) {
            proof {
                let w = choose|w: int| 0 <= w < ids@.len() && ids@[w]@ == session.source.thread.id@;
                assert(has_key(ids@, session.source.thread.id@) ) by {
                    assert(ids@[w]@ == session.source.thread.id@);
                }
            }
            session.selected = false;
        } else {
            proof {
                if has_key(ids@, session.source.thread.id@) {
                    let w = choose|w: int| 0 <= w < ids@.len() && #[trigger] ids@[w]@ == session.source.thread.id@;
                    assert(has_string(ids@, session.source.thread.id@));
                }
            }
        }
        sessions.insert(s, session);
        s += 1;
    }
}

fn deselect_conflicts(projects: &mut Vec<UiProject>, ids: &Vec<String>, threads: Ghost<Seq<PlannedThread>>)
    requires
        forall|x: Seq<char>| #[trigger] has_key(ids@, x) <==> is_conflict_id(threads@, x),
    ensures
        deselected(final(projects)@, old(projects)@, threads@),
{
    let mut p: usize = 0;
    while p < projects.len()
        invariant
            p <= projects@.len(),
            projects@.len() == old(projects)@.len(),
            forall|x: Seq<char>| #[trigger] has_key(ids@, x) <==> is_conflict_id(threads@, x),
            forall|q: int| p <= q < projects@.len() ==> #[trigger] projects@[q] == old(projects)@[q],
            forall|q: int|
                0 <= q < p ==> {
                    let (x, y) = (#[trigger] projects@[q], old(projects)@[q]);
                    &&& x.original_cwd == y.original_cwd
                    &&& x.target_path == y.target_path
                    &&& x.history_only == y.history_only
                    &&& x.expanded == y.expanded
                    &&& x.sessions@.len() == y.sessions@.len()
                    &&& forall|s: int|
                        0 <= s < x.sessions@.len() ==> (#[trigger] x.sessions@[s]).source
                            == y.sessions@[s].source && x.sessions@[s].selected == (
                        y.sessions@[s].selected && !is_conflict_id(
                            threads@,
                            y.sessions@[s].source.thread.id@,
                        ))
                },
        decreases projects@.len() - p,
    {
        let mut project = projects.remove(p);
        let ghost before = project;
        deselect_sessions(&mut project.sessions, ids);
        proof {
            assert forall|s: int| 0 <= s < project.sessions@.len() implies (
            #[trigger] project.sessions@[s]).selected == (before.sessions@[s].selected
                && !is_conflict_id(threads@, before.sessions@[s].source.thread.id@)) by {
                assert(has_key(ids@, before.sessions@[s].source.thread.id@) <==> is_conflict_id(
                    threads@,
                    before.sessions@[s].source.thread.id@,
                ));
            }
        }
        projects.insert(p, project);
        p += 1;
    }
}

// ---------------------------------------------------------------------------
// Transactions

/// One of the transactions has the id `id`.
pub open spec fn lists_transaction(list: Seq<TransactionSummary>, id: Seq<char>) -> bool {
    exists|i: int| 0 <= i < list.len() && (#[trigger] list[i]).id@ == id
}

fn has_transaction(list: &Vec<TransactionSummary>, id: &str) -> (r: bool)
    ensures
        r == lists_transaction(list@, id@),
{
    let mut i: usize = 0;
    while i < list.len()
        invariant
            i <= list@.len(),
            forall|k: int| 0 <= k < i ==> (#[trigger] list@[k]).id@ != id@,
        decreases list@.len() - i,
    {
        if crate::text::str_equal(list[i].id.as_str(), id) {
            return true;
        }
        i += 1;
    }
    false
}

fn transaction_ids(list: &Vec<TransactionSummary>) -> (ids: Vec<String>)
    ensures
        ascending(ids@),
        forall|x: Seq<char>| #[trigger] has_key(ids@, x) <==> lists_transaction(list@, x),
{
    let mut ids: Vec<String> = Vec::new();
    let mut i: usize = 0;
    while i < list.len()
        invariant
            i <= list@.len(),
            ascending(ids@),
            forall|x: Seq<char>| #[trigger] has_key(ids@, x) <==> lists_transaction(list@.take(i as int), x),
        decreases list@.len() - i,
    {
        let ghost before = list@.take(i as int);
        let ghost after = list@.take(i + 1);
        insert_sorted(&mut ids, list[i].id.clone());
        assert forall|x: Seq<char>| #[trigger] has_key(ids@, x) <==> lists_transaction(after, x) by {
            if lists_transaction(after, x) {
                let k = choose|k: int| 0 <= k < after.len() && (#[trigger] after[k]).id@ == x;
                if k < i {
                    assert(before[k] == after[k]);
                }
            }
            if lists_transaction(before, x) {
                let k = choose|k: int| 0 <= k < before.len() && (#[trigger] before[k]).id@ == x;
                assert(after[k] == before[k]);
            }
            if x == list@[i as int].id@ {
                assert(after[i as int] == list@[i as int]);
            }
        }
        i += 1;
    }
    assert(list@.take(list@.len() as int) =~= list@);
    ids
}

// ---------------------------------------------------------------------------
// Finished tasks

/// A source home was read: its projects are listed with everything
/// selected, their common parent is proposed, and the import moves on to
/// selecting.
pub open spec fn scanned(b: AppState, a: AppState, c: SourceCatalog, zh: bool) -> bool {
    &&& lists(b.projects@, c.projects@, Picking::All)
    &&& b.parent_source@ == parent_of(b.projects@)
    &&& b.status@ == scan_status(zh, c.projects@.len(), c.thread_count as nat)
    &&& b.success == Some(b.status)
    &&& b.catalog == Some(c)
    &&& b.plan is None
    &&& b.step == ImportStep::Select
    &&& keeps_others(
        b,
        a,
        set![
            Field::Projects,
            Field::ParentSource,
            Field::Status,
            Field::Success,
            Field::Catalog,
            Field::Plan,
            Field::Step,
        ],
    )
}

/// This device's home was read for repair: its projects are listed with
/// exactly those whose folder is missing here selected.
pub open spec fn repair_scanned(
    b: AppState,
    a: AppState,
    c: SourceCatalog,
    present_dirs: Seq<String>,
    zh: bool,
) -> bool {
    &&& b.repair_projects@.len() == c.projects@.len()
    &&& forall|i: int|
        0 <= i < b.repair_projects@.len() ==> ui_of(
            #[trigger] b.repair_projects@[i],
            c.projects@[i],
            missing_here(c.projects@[i], present_dirs),
        )
    &&& b.parent_source@ == parent_of(b.repair_projects@)
    &&& b.status@ == repair_status(zh, c.projects@.len(), c.thread_count as nat)
    &&& keeps_others(b, a, set![Field::RepairProjects, Field::ParentSource, Field::Status])
}

/// This device's home was read for HTML export: nothing is selected yet.
pub open spec fn html_scanned(b: AppState, a: AppState, c: SourceCatalog, zh: bool) -> bool {
    &&& lists(b.html_projects@, c.projects@, Picking::Clear)
    &&& b.status@ == html_scan_status(zh, c.thread_count as nat)
    &&& keeps_others(b, a, set![Field::HtmlProjects, Field::Status])
}

/// A plan came back: with conflicts, their sessions are deselected and the
/// import goes back to selecting; else the plan is shown for preview.
pub open spec fn planned(b: AppState, a: AppState, plan: ImportPlan, zh: bool) -> bool {
    if exists|m: int|
        0 <= m < plan.threads@.len() && (#[trigger] plan.threads@[m]).action
            == MergeAction::Conflict {
        &&& deselected(b.projects@, a.projects@, plan.threads@)
        &&& b.error is Some
        &&& exists|keys: Seq<String>|
            ascending(keys) && (forall|x: Seq<char>|
                #[trigger] has_key(keys, x) <==> is_conflict_id(plan.threads@, x)) && b.error->0@
                == conflict_error(zh, keys.len())
        &&& b.plan is None
        &&& b.step == ImportStep::Select
        &&& keeps_others(b, a, set![Field::Projects, Field::Error, Field::Plan, Field::Step])
    } else {
        &&& b.status@ == preview_status(zh, plan.threads@.len())
        &&& b.success == Some(b.status)
        &&& b.plan == Some(plan)
        &&& b.step == ImportStep::Preview
        &&& keeps_others(b, a, set![Field::Status, Field::Success, Field::Plan, Field::Step])
    }
}

/// An import finished: it is reported with its transaction, which becomes
/// the selected one.
pub open spec fn imported(b: AppState, a: AppState, s: ImportSummary, zh: bool) -> bool {
    &&& b.status@ == import_status(zh, s.imported as nat, s.refreshed as nat)
    &&& b.success is Some
    &&& b.success->0@ == import_success(zh, b.status@, s.transaction_id@)
    &&& b.selected_transaction == Some(s.transaction_id)
    &&& b.import_completion == Some(s)
    &&& keeps_others(
        b,
        a,
        set![Field::Status, Field::Success, Field::SelectedTransaction, Field::ImportCompletion],
    )
}

/// A repair finished.
pub open spec fn rebound(b: AppState, a: AppState, s: ImportSummary, zh: bool) -> bool {
    &&& b.status@ == rebind_status(zh, (s.refreshed + s.imported) as nat)
    &&& b.import_completion == Some(s)
    &&& keeps_others(b, a, set![Field::Status, Field::ImportCompletion])
}

/// The text of a folder that may be unknown.
pub open spec fn folder_text(folder: Option<String>) -> Seq<char> {
    match folder {
        Some(f) => f@,
        None => Seq::<char>::empty(),
    }
}

/// An HTML export finished.
pub open spec fn html_exported(
    b: AppState,
    a: AppState,
    s: HtmlExportSummary,
    folder: Option<String>,
    zh: bool,
) -> bool {
    &&& b.status@ == exported_message(zh, s.exported as nat, "个 HTML 会话"@, "HTML sessions"@)
    &&& b.success == Some(b.status)
    &&& b.completion_notice matches Some(n)
    &&& n.title@ == lang(zh, "HTML 导出完成"@, "HTML export completed"@)
    &&& n.message@ == exported_message(zh, s.exported as nat, "个会话"@, "sessions"@)
    &&& n.detail@ == folder_text(folder)
    &&& keeps_others(b, a, set![Field::Status, Field::Success, Field::CompletionNotice])
}

/// A backup finished.
pub open spec fn backed_up(b: AppState, a: AppState, s: ExportSummary, zh: bool) -> bool {
    &&& b.status@ == exported_message(zh, s.thread_count as nat, "个会话"@, "sessions"@)
    &&& b.success is Some
    &&& b.success->0@ == b.status@ + "："@ + s.output@
    &&& b.completion_notice matches Some(n)
    &&& n.title@ == lang(zh, "备份导出完成"@, "Backup export completed"@)
    &&& n.message@ == b.status@
    &&& n.detail == s.output
    &&& keeps_others(b, a, set![Field::Status, Field::Success, Field::CompletionNotice])
}

/// A health report came back.
pub open spec fn diagnosed(b: AppState, a: AppState, r: DiagnosticReport, zh: bool) -> bool {
    &&& b.status@ == diagnose_status(zh, r.issues@.len())
    &&& b.diagnostic == Some(r)
    &&& keeps_others(b, a, set![Field::Status, Field::Diagnostic])
}

/// A full verification passed.
pub open spec fn verified(b: AppState, a: AppState, r: DiagnosticReport, zh: bool) -> bool {
    &&& b.status@ == verify_status(zh)
    &&& b.success == Some(b.status)
    &&& b.diagnostic == Some(r)
    &&& keeps_others(b, a, set![Field::Status, Field::Success, Field::Diagnostic])
}

/// The transactions were listed: all of them are ticked, and the selected
/// one stays unless it is gone, when the newest takes its place.
pub open spec fn transactions_listed(b: AppState, a: AppState, list: Vec<TransactionSummary>) -> bool {
    let keep = match a.selected_transaction {
        Some(s) => lists_transaction(list@, s@),
        None => false,
    };
    &&& keep ==> b.selected_transaction == a.selected_transaction
    &&& !keep ==> crate::json::opt_chars(b.selected_transaction) == if list@.len() > 0 {
        Some(list@[0].id@)
    } else {
        None
    }
    &&& ascending(b.selected_transactions@)
    &&& forall|x: Seq<char>| #[trigger] has_key(b.selected_transactions@, x) <==> lists_transaction(list@, x)
    &&& b.transactions == list
    &&& keeps_others(
        b,
        a,
        set![Field::SelectedTransaction, Field::SelectedTransactions, Field::Transactions],
    )
}

/// A transaction was rolled back.
pub open spec fn rolled_back(b: AppState, a: AppState, id: String, zh: bool) -> bool {
    &&& exists|short: Seq<char>| is_short_id(short, id@) && b.status@ == rollback_status(zh, short)
    &&& b.success == Some(b.status)
    &&& b.selected_transaction is None
    &&& keeps_others(b, a, set![Field::Status, Field::Success, Field::SelectedTransaction])
}

/// Transactions were deleted: none is ticked any more.
pub open spec fn transactions_deleted(b: AppState, a: AppState, n: usize, zh: bool) -> bool {
    &&& b.status@ == deleted_status(zh, n as nat)
    &&& b.completion_notice matches Some(c)
    &&& c.title@ == lang(zh, "回滚数据已删除"@, "Rollback data deleted"@)
    &&& c.message == b.status
    &&& c.detail@.len() == 0
    &&& b.selected_transactions@.len() == 0
    &&& keeps_others(b, a, set![Field::Status, Field::CompletionNotice, Field::SelectedTransactions])
}

/// Takes in the result of a finished task (see the predicates above for
/// each kind), and says what to start next: the transactions are listed
/// again after an import, a rollback or a deletion.
///
/// `zh` tells whether the app speaks Chinese.
pub fn apply_result(state: &mut AppState, result: TaskResult, zh: bool) -> (f: FollowUp)
    requires
        result matches TaskResult::Rebind(Ok(s)) ==> s.refreshed + s.imported <= usize::MAX,
        result matches TaskResult::Rollback(Ok(id)) ==> vstd::utf8::encode_utf8(id@).len()
            <= usize::MAX,
    ensures
        task_error(result) matches Some(e) ==> failed(*final(state), *old(state), e, zh) && f
            == FollowUp::Nothing,
        result matches TaskResult::Scan(Ok(c)) ==> scanned(*final(state), *old(state), c, zh) && f
            == FollowUp::Nothing,
        result matches TaskResult::RepairScan(Ok(c), present) ==> repair_scanned(
            *final(state),
            *old(state),
            c,
            present@,
            zh,
        ) && f == FollowUp::Nothing,
        result matches TaskResult::HtmlScan(Ok(c)) ==> html_scanned(*final(state), *old(state), c, zh)
            && f == FollowUp::Nothing,
        result matches TaskResult::Plan(Ok(p)) ==> planned(*final(state), *old(state), p, zh) && f
            == FollowUp::Nothing,
        result matches TaskResult::Import(Ok(s)) ==> imported(*final(state), *old(state), s, zh) && f
            == FollowUp::RefreshTransactions,
        result matches TaskResult::Rebind(Ok(s)) ==> rebound(*final(state), *old(state), s, zh) && f
            == FollowUp::Nothing,
        result matches TaskResult::HtmlExport(Ok(s), folder) ==> html_exported(
            *final(state),
            *old(state),
            s,
            folder,
            zh,
        ) && f == FollowUp::Nothing,
        result matches TaskResult::Export(Ok(s)) ==> backed_up(*final(state), *old(state), s, zh) && f
            == FollowUp::Nothing,
        result matches TaskResult::Diagnose(Ok(r)) ==> diagnosed(*final(state), *old(state), r, zh)
            && f == FollowUp::Nothing,
        result matches TaskResult::Verify(Ok(r)) ==> verified(*final(state), *old(state), r, zh) && f
            == FollowUp::Nothing,
        result matches TaskResult::Transactions(Ok(list)) ==> transactions_listed(
            *final(state),
            *old(state),
            list,
        ) && f == FollowUp::Nothing,
        result matches TaskResult::Rollback(Ok(id)) ==> rolled_back(*final(state), *old(state), id, zh)
            && f == FollowUp::RefreshTransactions,
        result matches TaskResult::DeleteTransactions(Ok(n)) ==> transactions_deleted(
            *final(state),
            *old(state),
            n,
            zh,
        ) && f == FollowUp::RefreshTransactions,
{
    match result {
        TaskResult::Scan(Ok(catalog)) => {
            state.projects = list_projects(&catalog.projects, Picking::All);
            state.parent_source = parent_text(&state.projects);
            state.status = scan_text(zh, catalog.projects.len(), catalog.thread_count);
            state.success = Some(state.status.clone());
            state.catalog = Some(catalog);
            state.plan = None;
            state.step = ImportStep::Select;
            FollowUp::Nothing
        },
        TaskResult::RepairScan(Ok(catalog), present) => {
            state.repair_projects = list_projects(&catalog.projects, Picking::Missing(present.as_slice()));
            state.parent_source = parent_text(&state.repair_projects);
            state.status = repair_text(zh, catalog.projects.len(), catalog.thread_count);
            FollowUp::Nothing
        },
        TaskResult::HtmlScan(Ok(catalog)) => {
            state.html_projects = list_projects(&catalog.projects, Picking::Clear);
            state.status = html_scan_text(zh, catalog.thread_count);
            FollowUp::Nothing
        },
        TaskResult::Plan(Ok(plan)) => {
            let ids = conflict_ids(&plan.threads);
            if ids.len() > 0 {
                deselect_conflicts(&mut state.projects, &ids, Ghost(plan.threads@));
                state.error = Some(conflict_text(zh, ids.len()));
                state.plan = None;
                state.step = ImportStep::Select;
                proof {
                    let x = ids@[0]@;
                    assert(has_key(ids@, x));
                    let m = choose|m: int|
                        0 <= m < plan.threads@.len() && (#[trigger] plan.threads@[m]).action
                            == MergeAction::Conflict && plan.threads@[m].thread.id@ == x;
                    assert(plan.threads@[m].action == MergeAction::Conflict);
                }
            } else {
                proof {
                    assert forall|m: int| 0 <= m < plan.threads@.len() implies (
                    #[trigger] plan.threads@[m]).action != MergeAction::Conflict by {
                        if plan.threads@[m].action == MergeAction::Conflict {
                            assert(is_conflict_id(plan.threads@, plan.threads@[m].thread.id@));
                            assert(has_key(ids@, plan.threads@[m].thread.id@));
                        }
                    }
                }
                state.status = preview_text(zh, plan.threads.len());
                state.success = Some(state.status.clone());
                state.plan = Some(plan);
                state.step = ImportStep::Preview;
            }
            FollowUp::Nothing
        },
        TaskResult::Import(Ok(summary)) => {
            state.status = import_text(zh, summary.imported, summary.refreshed);
            state.success = Some(
                import_success_text(zh, state.status.as_str(), summary.transaction_id.as_str()),
            );
            state.selected_transaction = Some(summary.transaction_id.clone());
            state.import_completion = Some(summary);
            FollowUp::RefreshTransactions
        },
        TaskResult::Rebind(Ok(summary)) => {
            state.status = rebind_text(zh, summary.refreshed + summary.imported);
            state.import_completion = Some(summary);
            FollowUp::Nothing
        },
        TaskResult::HtmlExport(Ok(summary), folder) => {
            state.status = exported_text(zh, summary.exported, "个 HTML 会话", "HTML sessions");
            state.success = Some(state.status.clone());
            let detail = match folder {
                Some(f) => f,
                None => String::new(),
            };
            state.completion_notice = Some(
                CompletionNotice {
                    title: tr(zh, "HTML 导出完成", "HTML export completed").to_owned(),
                    message: exported_text(zh, summary.exported, "个会话", "sessions"),
                    detail,
                },
            );
            FollowUp::Nothing
        },
        TaskResult::Export(Ok(summary)) => {
            state.status = exported_text(zh, summary.thread_count, "个会话", "sessions");
            state.success = Some(joined_text(state.status.as_str(), "：", summary.output.as_str()));
            state.completion_notice = Some(
                CompletionNotice {
                    title: tr(zh, "备份导出完成", "Backup export completed").to_owned(),
                    message: exported_text(zh, summary.thread_count, "个会话", "sessions"),
                    detail: summary.output,
                },
            );
            FollowUp::Nothing
        },
        TaskResult::Diagnose(Ok(report)) => {
            state.status = diagnose_text(zh, report.issues.len());
            state.diagnostic = Some(report);
            FollowUp::Nothing
        },
        TaskResult::Verify(Ok(report)) => {
            state.status = tr(zh, "完整验证通过", "Full verification passed").to_owned();
            state.success = Some(state.status.clone());
            state.diagnostic = Some(report);
            FollowUp::Nothing
        },
        TaskResult::Transactions(Ok(list)) => {
            let keep = match &state.selected_transaction {
                Some(s) => has_transaction(&list, s.as_str()),
                None => false,
            };
            if !keep {
                state.selected_transaction = if list.len() > 0 {
                    Some(list[0].id.clone())
                } else {
                    None
                };
            }
            state.selected_transactions = transaction_ids(&list);
            state.transactions = list;
            FollowUp::Nothing
        },
        TaskResult::Rollback(Ok(id)) => {
            let short = short_id(id.as_str());
            let mut o: Vec<char> = Vec::new();
            push_lang(&mut o, zh, "已回滚事务", "Rolled back transaction");
            extend_str(&mut o, " ");
            extend_str(&mut o, short);
            assert(o@ =~= rollback_status(zh, short@));
            assert(is_short_id(short@, id@));
            state.status = string_of(o.as_slice());
            state.success = Some(state.status.clone());
            state.selected_transaction = None;
            FollowUp::RefreshTransactions
        },
        TaskResult::DeleteTransactions(Ok(deleted)) => {
            state.status = deleted_text(zh, deleted);
            state.completion_notice = Some(
                CompletionNotice {
                    title: tr(zh, "回滚数据已删除", "Rollback data deleted").to_owned(),
                    message: state.status.clone(),
                    detail: String::new(),
                },
            );
            state.selected_transactions = Vec::new();
            FollowUp::RefreshTransactions
        },
        TaskResult::Scan(Err(e)) | TaskResult::RepairScan(Err(e), _) | TaskResult::HtmlScan(Err(e))
        | TaskResult::Plan(Err(e)) | TaskResult::Import(Err(e)) | TaskResult::Rebind(Err(e))
        | TaskResult::HtmlExport(Err(e), _) | TaskResult::Export(Err(e)) | TaskResult::Diagnose(
            Err(e),
        ) | TaskResult::Verify(Err(e)) | TaskResult::Transactions(Err(e)) | TaskResult::Rollback(
            Err(e),
        ) | TaskResult::DeleteTransactions(Err(e)) => {
            fail(state, e, zh);
            FollowUp::Nothing
        },
    }
}

// ---------------------------------------------------------------------------
// Requests

/// The number of projects with a selected session.
pub open spec fn chosen_projects(projects: Seq<UiProject>) -> nat
    decreases projects.len(),
{
    if projects.len() == 0 {
        0
    } else {
        chosen_projects(projects.drop_last()) + if crate::selection::count_selected(
            projects.last().sessions@,
        ) > 0 {
            1nat
        } else {
            0nat
        }
    }
}

/// The number of projects that still need somewhere to go: some session is
/// selected, the project is not kept as history only, and its target is
/// blank or not a folder here (`present_dirs` are the folders that exist).
pub open spec fn waiting_projects(projects: Seq<UiProject>, present_dirs: Seq<String>) -> nat
    decreases projects.len(),
{
    if projects.len() == 0 {
        0
    } else {
        let p = projects.last();
        let ready = crate::selection::count_selected(p.sessions@) == 0 || p.history_only || (
        p.target_path@.len() > 0 && has_string(present_dirs, p.target_path@));
        waiting_projects(projects.drop_last(), present_dirs) + if ready {
            0nat
        } else {
            1nat
        }
    }
}

impl AppState {
    /// How many projects have a selected session.
    pub fn project_count(&self) -> (n: usize)
        ensures
            n == chosen_projects(self.projects@),
    {
        let mut n: usize = 0;
        let mut i: usize = 0;
        while i < self.projects.len()
            invariant
                i <= self.projects@.len(),
                n == chosen_projects(self.projects@.take(i as int)),
                n <= i,
            decreases self.projects@.len() - i,
        {
            assert(self.projects@.take(i + 1).drop_last() =~= self.projects@.take(i as int));
            if self.projects[i].selected_count() > 0 {
                n += 1;
            }
            i += 1;
        }
        assert(self.projects@.take(self.projects@.len() as int) =~= self.projects@);
        n
    }

    /// How many projects still need a folder before the import can go on.
    ///
    /// `present_dirs` are the folders that exist on this device.
    pub fn pending_mapping_count(&self, present_dirs: &[String]) -> (n: usize)
        ensures
            n == waiting_projects(self.projects@, present_dirs@),
    {
        let mut n: usize = 0;
        let mut i: usize = 0;
        while i < self.projects.len()
            invariant
                i <= self.projects@.len(),
                n == waiting_projects(self.projects@.take(i as int), present_dirs@),
                n <= i,
            decreases self.projects@.len() - i,
        {
            assert(self.projects@.take(i + 1).drop_last() =~= self.projects@.take(i as int));
            let p = &self.projects[i];
            let is_dir = contains_string(present_dirs, p.target_path.as_str());
            if !p.is_ready(is_dir) {
                n += 1;
            }
            i += 1;
        }
        assert(self.projects@.take(self.projects@.len() as int) =~= self.projects@);
        n
    }

    /// Selects or clears every session of the import; the plan is dropped,
    /// and a preview goes back to selecting.
    pub fn set_all(&mut self, selected: bool)
        ensures
            final(self).projects@.len() == old(self).projects@.len(),
            forall|p: int|
                0 <= p < final(self).projects@.len() ==> {
                    let (a, b) = (#[trigger] final(self).projects@[p], old(self).projects@[p]);
                    &&& a.sessions@.len() == b.sessions@.len()
                    &&& forall|i: int|
                        0 <= i < a.sessions@.len() ==> (#[trigger] a.sessions@[i]).selected == selected
                            && a.sessions@[i].source == b.sessions@[i].source
                    &&& a.original_cwd == b.original_cwd
                    &&& a.target_path == b.target_path
                    &&& a.history_only == b.history_only
                },
            final(self).plan is None,
            final(self).step == if old(self).step == ImportStep::Preview {
                ImportStep::Select
            } else {
                old(self).step
            },
            keeps_others(*final(self), *old(self), set![Field::Projects, Field::Plan, Field::Step]),
    {
        set_projects_selected(&mut self.projects, selected);
        self.plan = None;
        if self.step == ImportStep::Preview {
            self.step = ImportStep::Select;
        }
    }

    /// The transaction to roll back: the selected one; with none selected,
    /// the user is told to pick one and nothing starts.
    pub fn rollback_request(&mut self, zh: bool) -> (id: Option<String>)
        ensures
            id == old(self).selected_transaction,
            id is None ==> crate::json::opt_chars(final(self).error) == Some(
                lang(zh, "请先选择一个回滚事务"@, "Select a rollback transaction first"@),
            ),
            keeps_others(*final(self), *old(self), set![Field::Error]),
            id is Some ==> final(self).error == old(self).error,
    {
        match &self.selected_transaction {
            Some(id) => Some(id.clone()),
            None => {
                self.error = Some(
                    tr(zh, "请先选择一个回滚事务", "Select a rollback transaction first").to_owned(),
                );
                None
            },
        }
    }

    /// The ticked transactions to delete, in order; with none ticked, the
    /// user is told to tick one and nothing starts.
    pub fn delete_request(&mut self, zh: bool) -> (ids: Option<Vec<String>>)
        ensures
            old(self).selected_transactions@.len() == 0 ==> ids is None && crate::json::opt_chars(
                final(self).error,
            ) == Some(
                lang(
                    zh,
                    "请至少选择一个要删除的回滚事务"@,
                    "Select at least one rollback transaction to delete"@,
                ),
            ),
            old(self).selected_transactions@.len() > 0 ==> ids is Some && ids->0@
                == old(self).selected_transactions@ && final(self).error == old(self).error,
            keeps_others(*final(self), *old(self), set![Field::Error]),
    {
        if self.selected_transactions.len() == 0 {
            self.error = Some(
                tr(
                    zh,
                    "请至少选择一个要删除的回滚事务",
                    "Select at least one rollback transaction to delete",
                ).to_owned(),
            );
            return None;
        }
        let mut ids: Vec<String> = Vec::new();
        let mut i: usize = 0;
        while i < self.selected_transactions.len()
            invariant
                i <= self.selected_transactions@.len(),
                ids@ == self.selected_transactions@.take(i as int),
            decreases self.selected_transactions@.len() - i,
        {
            ids.push(self.selected_transactions[i].clone());
            assert(self.selected_transactions@.take(i + 1) =~= self.selected_transactions@.take(
                i as int,
            ).push(self.selected_transactions@[i as int]));
            i += 1;
        }
        assert(self.selected_transactions@.take(self.selected_transactions@.len() as int)
            =~= self.selected_transactions@);
        Some(ids)
    }
}

/// The counts that the preview shows: the planned threads that the import
/// writes (new or longer copies), and the others, which it skips.
pub fn preview_counts(plan: &ImportPlan) -> (r: (usize, usize))
    ensures
        r.0 == crate::execution::written_count(plan.threads@),
        r.0 + r.1 == plan.threads@.len(),
{
    let mut written: usize = 0;
    let mut i: usize = 0;
    while i < plan.threads.len()
        invariant
            i <= plan.threads@.len(),
            written == crate::execution::written_count(plan.threads@.take(i as int)),
            written <= i,
        decreases plan.threads@.len() - i,
    {
        assert(plan.threads@.take(i + 1).drop_last() =~= plan.threads@.take(i as int));
        if plan.threads[i].action == MergeAction::Import || plan.threads[i].action
            == MergeAction::ReplaceWithLonger {
            written += 1;
        }
        i += 1;
    }
    assert(plan.threads@.take(plan.threads@.len() as int) =~= plan.threads@);
    (written, plan.threads.len() - written)
}

} // verus!
