//! The records that the migration reads, plans and writes.
use vstd::prelude::*;

verus! {

/// The operating system family that a Codex home belongs to.
#[derive(Debug, Clone, Copy, PartialEq, Eq, Structural)]
pub enum PlatformKind {
    Macos,
    Windows,
    Linux,
    Wsl,
    Unknown,
}

/// What an import does with one selected thread.
#[derive(Debug, Clone, Copy, PartialEq, Eq, Structural)]
pub enum MergeAction {
    Import,
    SkipIdentical,
    ReplaceWithLonger,
    KeepTargetLonger,
    Conflict,
}

/// The metadata of one conversation thread.
#[derive(Debug, Clone)]
pub struct ThreadRecord {
    pub id: String,
    pub title: String,
    pub created_at: i64,
    pub updated_at: i64,
    pub cwd: String,
    pub source: String,
    pub thread_source: Option<String>,
    pub model_provider: String,
    pub cli_version: String,
    pub archived: bool,
    pub archive_path: String,
    pub sha256: String,
    pub byte_len: u64,
    pub first_user_message: String,
    pub sandbox_policy: Option<String>,
    pub approval_mode: Option<String>,
    pub model: Option<String>,
    pub reasoning_effort: Option<String>,
}

/// A thread read from disk: its record, where it was found and its bytes.
#[derive(Debug, Clone)]
pub struct ScannedThread {
    pub record: ThreadRecord,
    pub source_path: String,
    pub content: Vec<u8>,
}

/// The threads of a source Codex home, grouped by project.
#[derive(Debug, Clone)]
pub struct SourceCatalog {
    pub source_codex_home: String,
    pub source_platform: PlatformKind,
    pub source_codex_version: Option<String>,
    pub projects: Vec<SourceProject>,
    pub thread_count: usize,
}

/// One project folder of a source Codex home.
#[derive(Debug, Clone)]
pub struct SourceProject {
    pub original_cwd: String,
    pub suggested_target: Option<String>,
    pub sessions: Vec<SourceSession>,
}

/// One session of a source project.
#[derive(Debug, Clone)]
pub struct SourceSession {
    pub thread: ThreadRecord,
    pub source_path: String,
}

/// What the user selected for an import.
///
/// The selected ids are held in ascending order without repetition, and the
/// mappings by ascending source path with one entry per source, as the
/// ordered set and map they come from hold them.
#[derive(Debug, Clone, Default)]
pub struct ImportOptions {
    pub selected_thread_ids: Vec<String>,
    pub mappings: Vec<(String, String)>,
    pub history_only_projects: Vec<String>,
}

/// The journal of one import, from which it can be rolled back.
#[derive(Debug, Clone)]
pub struct TransactionRecord {
    pub id: String,
    pub created_at: String,
    pub codex_home: String,
    pub sqlite_home: String,
    pub source_codex_home: String,
    pub backups: Vec<BackupEntry>,
    pub created_files: Vec<String>,
    pub replaced_files: Vec<BackupEntry>,
    pub completed: bool,
}

/// A file and the copy that was taken of it.
#[derive(Debug, Clone)]
pub struct BackupEntry {
    pub original: String,
    pub backup: String,
}

/// The plan for one selected thread.
#[derive(Debug, Clone)]
pub struct PlannedThread {
    pub thread: ThreadRecord,
    pub source_path: String,
    pub mapped_cwd: String,
    pub history_only: bool,
    pub target_path: String,
    pub action: MergeAction,
    pub reason: String,
}

/// The plan of an import.
#[derive(Debug, Clone)]
pub struct ImportPlan {
    pub source_codex_home: String,
    pub codex_home: String,
    pub threads: Vec<PlannedThread>,
    pub conflicts: usize,
}

/// The findings of a health check of a Codex home.
#[derive(Debug, Clone)]
pub struct DiagnosticReport {
    pub codex_home: String,
    pub sqlite_home: String,
    pub codex_executable: Option<String>,
    pub codex_version: Option<String>,
    pub platform: PlatformKind,
    pub wsl: bool,
    pub state_db: Option<String>,
    pub schema_version: Option<i64>,
    pub active_rollouts: usize,
    pub archived_rollouts: usize,
    pub database_threads: usize,
    pub integrity: Option<String>,
    pub issues: Vec<String>,
}

/// A copy of an optional string.
pub fn copy_opt_string(o: &Option<String>) -> (r: Option<String>)
    ensures
        r == *o,
{
    match o {
        Some(s) => Some(s.clone()),
        None => None,
    }
}

impl ThreadRecord {
    /// A field-by-field copy of the record.
    pub fn duplicate(&self) -> (r: ThreadRecord)
        ensures
            r == *self,
    {
        ThreadRecord {
            id: self.id.clone(),
            title: self.title.clone(),
            created_at: self.created_at,
            updated_at: self.updated_at,
            cwd: self.cwd.clone(),
            source: self.source.clone(),
            thread_source: copy_opt_string(&self.thread_source),
            model_provider: self.model_provider.clone(),
            cli_version: self.cli_version.clone(),
            archived: self.archived,
            archive_path: self.archive_path.clone(),
            sha256: self.sha256.clone(),
            byte_len: self.byte_len,
            first_user_message: self.first_user_message.clone(),
            sandbox_policy: copy_opt_string(&self.sandbox_policy),
            approval_mode: copy_opt_string(&self.approval_mode),
            model: copy_opt_string(&self.model),
            reasoning_effort: copy_opt_string(&self.reasoning_effort),
        }
    }
}

} // verus!
