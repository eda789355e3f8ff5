//! The decisions behind the migration commands: which folder is a Codex
//! home, how a scanned source home is presented by project, which
//! selections an import accepts, and the plan that an import carries out.
use crate::merge::{
    build_plan, contains_string, entry_outcome, has_string, is_import_plan, is_plan_error,
    last_with_id, plan_error_of, EntryOutcome, PlanError,
};
use crate::model::{
    ImportOptions, ImportPlan, PlannedThread, PlatformKind, ScannedThread, SourceCatalog,
    SourceProject, SourceSession, TransactionRecord,
};
use crate::order::{law_sort_is_permutation, sort_ranked, sort_stable, Ranked};
use crate::path_mapper::{
    hex_encode, hex_lower, join_path, join_spec, lemma_hex_lower_len, map_explicit,
    map_explicit_spec, normalize, normalize_spec, pair_views, sha256_digest, sha256_of,
};
use crate::text::{
    ascending, ascii_alpha, chars_of, has_key, insert_sorted, is_ascii_alpha, lower_chars,
    lower_seq, seq_less, starts_with, str_equal, str_less, str_starts_with, string_of,
    string_push_str,
};
use vstd::prelude::*;

verus! {

// ---------------------------------------------------------------------------
// The Codex home inside a selected folder

/// Why a selected folder has no Codex home.
#[derive(Debug, Clone, PartialEq, Eq)]
pub enum RootError {
    /// The folder is no Codex home and holds neither `Codex` nor `.codex`.
    NotCodexFolder(String),
    /// The folder holds both a `Codex` and a `.codex` home.
    Ambiguous(String),
}

impl RootError {
    /// The message shown to the user.
    pub fn message(&self) -> (s: String)
        ensures
            s@ == match self {
                RootError::NotCodexFolder(path) => path@
                    + " is not a Codex folder and contains no Codex/.codex child"@,
                RootError::Ambiguous(path) => path@
                    + " contains both Codex and .codex; select the intended folder directly"@,
            },
    {
        let mut out = String::new();
        match self {
            RootError::NotCodexFolder(path) => {
                string_push_str(&mut out, path.as_str());
                string_push_str(&mut out, " is not a Codex folder and contains no Codex/.codex child");
            },
            RootError::Ambiguous(path) => {
                string_push_str(&mut out, path.as_str());
                string_push_str(
                    &mut out,
                    " contains both Codex and .codex; select the intended folder directly",
                );
            },
        }
        out
    }
}

/// The Codex home that a selected folder stands for: the folder itself when
/// it is one, else its only `Codex` or `.codex` child that is one.
///
/// Whether a folder is a Codex home (it holds `sessions`, `archived_sessions`
/// or a state database) is told for the folder and its two children.
pub fn resolve_codex_root(
    selected: &str,
    selected_is_root: bool,
    codex_child_is_root: bool,
    dot_codex_child_is_root: bool,
) -> (r: Result<String, RootError>)
    ensures
        match r {
            Ok(p) => {
                ||| selected_is_root && p@ == selected@
                ||| !selected_is_root && codex_child_is_root && !dot_codex_child_is_root && p@
                    == join_spec(selected@, "Codex"@)
                ||| !selected_is_root && !codex_child_is_root && dot_codex_child_is_root && p@
                    == join_spec(selected@, ".codex"@)
            },
            Err(RootError::NotCodexFolder(p)) => !selected_is_root && !codex_child_is_root
                && !dot_codex_child_is_root && p@ == selected@,
            Err(RootError::Ambiguous(p)) => !selected_is_root && codex_child_is_root
                && dot_codex_child_is_root && p@ == selected@,
        },
{
    if selected_is_root {
        return Ok(selected.to_owned());
    }
    if codex_child_is_root && dot_codex_child_is_root {
        Err(RootError::Ambiguous(selected.to_owned()))
    } else if codex_child_is_root {
        Ok(join_path(selected, "Codex"))
    } else if dot_codex_child_is_root {
        Ok(join_path(selected, ".codex"))
    } else {
        Err(RootError::NotCodexFolder(selected.to_owned()))
    }
}

// ---------------------------------------------------------------------------
// The catalog of a source home

impl Ranked for SourceSession {
    /// The more recently updated session comes first.
    open spec fn precedes(a: Self, b: Self) -> bool {
        a.thread.updated_at > b.thread.updated_at
    }

    fn goes_before(&self, other: &Self) -> (r: bool) {
        self.thread.updated_at > other.thread.updated_at
    }
}

/// The project folder of a scanned thread: its working directory, normalized.
pub open spec fn project_key(t: ScannedThread) -> Seq<char> {
    normalize_spec(t.record.cwd@)
}

/// The session that a scanned thread is listed as.
pub open spec fn session_of(t: ScannedThread) -> SourceSession {
    SourceSession { thread: t.record, source_path: t.source_path }
}

/// The sessions of the threads whose project folder is `cwd`, in scan order.
pub open spec fn sessions_in(threads: Seq<ScannedThread>, cwd: Seq<char>) -> Seq<SourceSession>
    decreases threads.len(),
{
    if threads.len() == 0 {
        seq![]
    } else {
        let rest = sessions_in(threads.drop_last(), cwd);
        if project_key(threads.last()) == cwd {
            rest.push(session_of(threads.last()))
        } else {
            rest
        }
    }
}

/// Some thread has `key` as its project folder.
pub open spec fn is_project_of(threads: Seq<ScannedThread>, key: Seq<char>) -> bool {
    exists|k: int| 0 <= k < threads.len() && #[trigger] project_key(threads[k]) == key
}

/// A path of the form `C:...`: a drive letter and a colon, and more.
pub open spec fn drive_form(p: Seq<char>) -> bool {
    p.len() >= 3 && is_ascii_alpha(p[0]) && p[1] == ':'
}

/// Some thread's project folder begins with `prefix`.
pub open spec fn some_project_starts(threads: Seq<ScannedThread>, prefix: Seq<char>) -> bool {
    exists|k: int| 0 <= k < threads.len() && starts_with(#[trigger] project_key(threads[k]), prefix)
}

/// The platform that the project folders of a source home come from: a
/// drive letter means Windows, `/mnt/` WSL, `/Users/` or `/Volumes/` macOS,
/// and anything else Linux, in that order of precedence.
pub open spec fn infer_platform_spec(threads: Seq<ScannedThread>) -> PlatformKind {
    if exists|k: int| 0 <= k < threads.len() && drive_form(#[trigger] project_key(threads[k])) {
        PlatformKind::Windows
    } else if some_project_starts(threads, "/mnt/"@) {
        PlatformKind::Wsl
    } else if some_project_starts(threads, "/Users/"@) || some_project_starts(
        threads,
        "/Volumes/"@,
    ) {
        PlatformKind::Macos
    } else {
        PlatformKind::Linux
    }
}

/// The first non-empty Codex version that a thread was written by.
pub open spec fn first_version(threads: Seq<ScannedThread>) -> Option<String>
    decreases threads.len(),
{
    if threads.len() == 0 {
        None
    } else if threads[0].record.cli_version@.len() > 0 {
        Some(threads[0].record.cli_version)
    } else {
        first_version(threads.drop_first())
    }
}

/// One project of the catalog, given its folder: the folder is suggested as
/// the target when it exists here, and its sessions come most recent first,
/// in scan order among equally recent ones.
pub open spec fn project_spec(
    p: SourceProject,
    threads: Seq<ScannedThread>,
    present_dirs: Seq<String>,
) -> bool {
    &&& p.suggested_target == (if has_string(present_dirs, p.original_cwd@) {
        Some(p.original_cwd)
    } else {
        None
    })
    &&& p.sessions@ == sort_ranked(sessions_in(threads, p.original_cwd@))
}

fn project_key_of(t: &ScannedThread) -> (k: String)
    ensures
        k@ == project_key(*t),
{
    normalize(t.record.cwd.as_str())
}

/// The distinct project folders of the threads, ascending.
fn project_keys(threads: &[ScannedThread]) -> (keys: Vec<String>)
    ensures
        ascending(keys@),
        forall|i: int| 0 <= i < keys@.len() ==> is_project_of(threads@, #[trigger] keys@[i]@),
        forall|k: int| 0 <= k < threads@.len() ==> has_key(keys@, #[trigger] project_key(threads@[k])),
{
    let mut keys: Vec<String> = Vec::new();
    let mut n: usize = 0;
    while n < threads.len()
        invariant
            n <= threads@.len(),
            ascending(keys@),
            forall|i: int| 0 <= i < keys@.len() ==> is_project_of(threads@, #[trigger] keys@[i]@),
            forall|k: int| 0 <= k < n ==> has_key(keys@, #[trigger] project_key(threads@[k])),
        decreases threads@.len() - n,
    {
        let key = project_key_of(&threads[n]);
        let ghost old_keys = keys@;
        assert(is_project_of(threads@, key@)) by {
            assert(project_key(threads@[n as int]) == key@);
        }
        insert_sorted(&mut keys, key);
        proof {
            assert forall|i: int| 0 <= i < keys@.len() implies is_project_of(
                threads@,
                #[trigger] keys@[i]@,
            ) by {
                assert(has_key(keys@, keys@[i]@));
            }
            assert forall|k: int| 0 <= k < n + 1 implies has_key(
                keys@,
                #[trigger] project_key(threads@[k]),
            ) by {
                if k < n {
                    assert(has_key(old_keys, project_key(threads@[k])));
                }
            }
        }
        n += 1;
    }
    keys
}

/// The sessions of the threads whose project folder is `key`, in scan order.
fn sessions_with_key(threads: &[ScannedThread], key: &str) -> (v: Vec<SourceSession>)
    ensures
        v@ == sessions_in(threads@, key@),
{
    let mut v: Vec<SourceSession> = Vec::new();
    let mut i: usize = 0;
    while i < threads.len()
        invariant
            i <= threads@.len(),
            v@ == sessions_in(threads@.take(i as int), key@),
        decreases threads@.len() - i,
    {
        assert(threads@.take(i + 1).drop_last() =~= threads@.take(i as int));
        let k = project_key_of(&threads[i]);
        if str_equal(k.as_str(), key) {
            v.push(
                SourceSession {
                    thread: threads[i].record.duplicate(),
                    source_path: threads[i].source_path.clone(),
                },
            );
        }
        i += 1;
    }
    assert(threads@.take(threads@.len() as int) =~= threads@);
    v
}

fn any_drive_form(threads: &[ScannedThread]) -> (r: bool)
    ensures
        r == exists|k: int| 0 <= k < threads@.len() && drive_form(#[trigger] project_key(threads@[k])),
{
    let mut i: usize = 0;
    while i < threads.len()
        invariant
            i <= threads@.len(),
            forall|k: int| 0 <= k < i ==> !drive_form(#[trigger] project_key(threads@[k])),
        decreases threads@.len() - i,
    {
        let p = chars_of(project_key_of(&threads[i]).as_str());
        if p.len() >= 3 && ascii_alpha(p[0]) && p[1] == ':' {
            return true;
        }
        i += 1;
    }
    false
}

fn any_starts(threads: &[ScannedThread], prefix: &str) -> (r: bool)
    ensures
        r == some_project_starts(threads@, prefix@),
{
    let mut i: usize = 0;
    while i < threads.len()
        invariant
            i <= threads@.len(),
            forall|k: int| 0 <= k < i ==> !starts_with(#[trigger] project_key(threads@[k]), prefix@),
        decreases threads@.len() - i,
    {
        let p = project_key_of(&threads[i]);
        if str_starts_with(p.as_str(), prefix) {
            return true;
        }
        i += 1;
    }
    false
}

/// The platform that the project folders of the threads come from (see
/// [`infer_platform_spec`]).
pub fn infer_source_platform(threads: &[ScannedThread]) -> (r: PlatformKind)
    ensures
        r == infer_platform_spec(threads@),
{
    if any_drive_form(threads) {
        PlatformKind::Windows
    } else if any_starts(threads, "/mnt/") {
        PlatformKind::Wsl
    } else if any_starts(threads, "/Users/") || any_starts(threads, "/Volumes/") {
        PlatformKind::Macos
    } else {
        PlatformKind::Linux
    }
}

fn first_codex_version(threads: &[ScannedThread]) -> (r: Option<String>)
    ensures
        r == first_version(threads@),
{
    let mut i: usize = 0;
    assert(threads@.skip(0) =~= threads@);
    while i < threads.len()
        invariant
            i <= threads@.len(),
            first_version(threads@) == first_version(threads@.skip(i as int)),
        decreases threads@.len() - i,
    {
        assert(threads@.skip(i as int).drop_first() =~= threads@.skip(i + 1));
        assert(threads@.skip(i as int)[0] == threads@[i as int]);
        if !threads[i].record.cli_version.as_str().is_empty() {
            return Some(threads[i].record.cli_version.clone());
        }
        i += 1;
    }
    assert(threads@.skip(i as int).len() == 0);
    None
}

/// The project folders of a catalog, in its order.
pub open spec fn project_names(c: SourceCatalog) -> Seq<String> {
    c.projects@.map_values(|p: SourceProject| p.original_cwd)
}

/// `c` is the catalog of the threads of the source home `source_root`: one
/// project per distinct project folder, the folders ascending, each project
/// as [`project_spec`] describes it, with the platform and the first Codex
/// version that the threads show.
pub open spec fn is_catalog_of(
    c: SourceCatalog,
    source_root: Seq<char>,
    threads: Seq<ScannedThread>,
    present_dirs: Seq<String>,
) -> bool {
    &&& c.source_codex_home@ == source_root
    &&& c.source_platform == infer_platform_spec(threads)
    &&& c.source_codex_version == first_version(threads)
    &&& c.thread_count == threads.len()
    &&& ascending(project_names(c))
    &&& forall|i: int|
        0 <= i < c.projects@.len() ==> is_project_of(threads, #[trigger] c.projects@[i].original_cwd@)
    &&& forall|k: int|
        0 <= k < threads.len() ==> has_key(project_names(c), #[trigger] project_key(threads[k]))
    &&& forall|i: int|
        0 <= i < c.projects@.len() ==> project_spec(#[trigger] c.projects@[i], threads, present_dirs)
}

/// The catalog of a source home: its threads grouped by project folder, the
/// folders ascending, with the platform and Codex version they came from.
///
/// `present_dirs` are the project folders that exist on this device.
pub fn build_catalog(source_root: &str, threads: &[ScannedThread], present_dirs: &[String]) -> (c:
    SourceCatalog)
    ensures
        is_catalog_of(c, source_root@, threads@, present_dirs@),
{
    let keys = project_keys(threads);
    let mut projects: Vec<SourceProject> = Vec::new();
    let mut j: usize = 0;
    while j < keys.len()
        invariant
            j <= keys@.len(),
            projects@.len() == j,
            forall|i: int| 0 <= i < j ==> (#[trigger] projects@[i]).original_cwd == keys@[i],
            forall|i: int| 0 <= i < j ==> project_spec(#[trigger] projects@[i], threads@, present_dirs@),
        decreases keys@.len() - j,
    {
        let key = &keys[j];
        let sessions = sort_stable(sessions_with_key(threads, key.as_str()));
        let suggested_target = if contains_string(present_dirs, key.as_str()) {
            Some(key.clone())
        } else {
            None
        };
        projects.push(SourceProject { original_cwd: key.clone(), suggested_target, sessions });
        j += 1;
    }
    let ghost names = projects@.map_values(|p: SourceProject| p.original_cwd);
    assert(names =~= keys@);
    SourceCatalog {
        source_codex_home: source_root.to_owned(),
        source_platform: infer_source_platform(threads),
        source_codex_version: first_codex_version(threads),
        thread_count: threads.len(),
        projects,
    }
}

// ---------------------------------------------------------------------------
// Selections

/// Why the selections of an import were refused.
#[derive(Debug, Clone, PartialEq, Eq)]
pub enum SelectionError {
    /// A selected thread is not in the catalog.
    UnknownThread(String),
    /// A selected project has no mapping, no folder here and is not kept as
    /// history only.
    NeedsFolder(String),
}

/// The message of a refused selection.
pub open spec fn selection_message(e: SelectionError) -> Seq<char> {
    match e {
        SelectionError::UnknownThread(id) => "unknown selected thread: "@ + id@,
        SelectionError::NeedsFolder(cwd) => "selected project requires a local folder or history-only mode: "@
            + cwd@,
    }
}

impl SelectionError {
    /// The message shown to the user.
    pub fn message(&self) -> (s: String)
        ensures
            s@ == selection_message(*self),
    {
        let mut out = String::new();
        match self {
            SelectionError::UnknownThread(id) => {
                string_push_str(&mut out, "unknown selected thread: ");
                string_push_str(&mut out, id.as_str());
            },
            SelectionError::NeedsFolder(cwd) => {
                string_push_str(&mut out, "selected project requires a local folder or history-only mode: ");
                string_push_str(&mut out, cwd.as_str());
            },
        }
        out
    }
}

/// Some session of the catalog has the thread id `id`.
pub open spec fn catalog_has_thread(catalog: SourceCatalog, id: Seq<char>) -> bool {
    exists|p: int, s: int|
        0 <= p < catalog.projects@.len() && 0 <= s < catalog.projects@[p].sessions@.len()
            && (#[trigger] catalog.projects@[p].sessions@[s]).thread.id@ == id
}

/// Some session of the project is selected.
pub open spec fn project_selected(p: SourceProject, ids: Seq<String>) -> bool {
    exists|s: int| 0 <= s < p.sessions@.len() && has_string(ids, (#[trigger] p.sessions@[s]).thread.id@)
}

/// The project's folder has somewhere to go: an explicit mapping, the same
/// folder on this device, or history-only mode.
pub open spec fn project_resolvable(
    p: SourceProject,
    options: ImportOptions,
    platform: PlatformKind,
    present_dirs: Seq<String>,
) -> bool {
    let cwd = normalize_spec(p.original_cwd@);
    ||| map_explicit_spec(cwd, pair_views(options.mappings@), platform) is Some
    ||| has_string(present_dirs, cwd)
    ||| has_string(options.history_only_projects@, cwd)
}

/// Every selected id is in the catalog.
pub open spec fn all_known(catalog: SourceCatalog, ids: Seq<String>) -> bool {
    forall|k: int| 0 <= k < ids.len() ==> catalog_has_thread(catalog, #[trigger] ids[k]@)
}

/// The selections are accepted: every selected id is known and every
/// selected project has somewhere to go.
pub open spec fn selections_valid(
    catalog: SourceCatalog,
    options: ImportOptions,
    platform: PlatformKind,
    present_dirs: Seq<String>,
) -> bool {
    &&& all_known(catalog, options.selected_thread_ids@)
    &&& forall|p: int|
        0 <= p < catalog.projects@.len() && project_selected(
            #[trigger] catalog.projects@[p],
            options.selected_thread_ids@,
        ) ==> project_resolvable(catalog.projects@[p], options, platform, present_dirs)
}

/// `e` is the refusal of the selections: the first unknown id, else the
/// first selected project with nowhere to go.
pub open spec fn is_selection_error(
    e: SelectionError,
    catalog: SourceCatalog,
    options: ImportOptions,
    platform: PlatformKind,
    present_dirs: Seq<String>,
) -> bool {
    let ids = options.selected_thread_ids@;
    match e {
        SelectionError::UnknownThread(id) => exists|k: int|
            0 <= k < ids.len() && ids[k]@ == id@ && !catalog_has_thread(catalog, id@) && all_known(
                catalog,
                ids.take(k),
            ),
        SelectionError::NeedsFolder(cwd) => all_known(catalog, ids) && exists|p: int|
            0 <= p < catalog.projects@.len() && (#[trigger] catalog.projects@[p]).original_cwd@
                == cwd@ && project_selected(catalog.projects@[p], ids) && !project_resolvable(
                catalog.projects@[p],
                options,
                platform,
                present_dirs,
            ) && forall|q: int|
                0 <= q < p && project_selected(#[trigger] catalog.projects@[q], ids)
                    ==> project_resolvable(catalog.projects@[q], options, platform, present_dirs),
    }
}

fn catalog_contains(catalog: &SourceCatalog, id: &str) -> (r: bool)
    ensures
        r == catalog_has_thread(*catalog, id@),
{
    let mut p: usize = 0;
    while p < catalog.projects.len()
        invariant
            p <= catalog.projects@.len(),
            forall|q: int, s: int|
                0 <= q < p && 0 <= s < catalog.projects@[q].sessions@.len() ==> (
                #[trigger] catalog.projects@[q].sessions@[s]).thread.id@ != id@,
        decreases catalog.projects@.len() - p,
    {
        let sessions = &catalog.projects[p].sessions;
        let mut s: usize = 0;
        while s < sessions.len()
            invariant
                p < catalog.projects@.len(),
                sessions == &catalog.projects@[p as int].sessions,
                s <= sessions@.len(),
                forall|t: int| 0 <= t < s ==> (#[trigger] sessions@[t]).thread.id@ != id@,
            decreases sessions@.len() - s,
        {
            if str_equal(sessions[s].thread.id.as_str(), id) {
                assert(catalog.projects@[p as int].sessions@[s as int].thread.id@ == id@);
                return true;
            }
            s += 1;
        }
        p += 1;
    }
    false
}

fn any_selected(project: &SourceProject, ids: &[String]) -> (r: bool)
    ensures
        r == project_selected(*project, ids@),
{
    let mut s: usize = 0;
    while s < project.sessions.len()
        invariant
            s <= project.sessions@.len(),
            forall|t: int|
                0 <= t < s ==> !has_string(ids@, (#[trigger] project.sessions@[t]).thread.id@),
        decreases project.sessions@.len() - s,
    {
        if contains_string(ids, project.sessions[s].thread.id.as_str()) {
            return true;
        }
        s += 1;
    }
    false
}

/// Checks the selections of an import against the catalog: every selected
/// thread must be in it, and every project with a selected thread needs a
/// mapping, its folder on this device, or history-only mode.
///
/// `platform` is this device's; `present_dirs` are the project folders that
/// exist on it.
pub fn validate_options(
    catalog: &SourceCatalog,
    options: &ImportOptions,
    platform: PlatformKind,
    present_dirs: &[String],
) -> (r: Result<(), SelectionError>)
    ensures
        r is Ok <==> selections_valid(*catalog, *options, platform, present_dirs@),
        r matches Err(e) ==> is_selection_error(e, *catalog, *options, platform, present_dirs@),
{
    let ids = &options.selected_thread_ids;
    let mut k: usize = 0;
    while k < ids.len()
        invariant
            k <= ids@.len(),
            ids == &options.selected_thread_ids,
            all_known(*catalog, ids@.take(k as int)),
        decreases ids@.len() - k,
    {
        if !catalog_contains(catalog, ids[k].as_str()) {
            return Err(SelectionError::UnknownThread(ids[k].clone()));
        }
        proof {
            assert forall|m: int| 0 <= m < k + 1 implies catalog_has_thread(
                *catalog,
                #[trigger] ids@.take(k + 1)[m]@,
            ) by {
                if m < k {
                    assert(ids@.take(k + 1)[m] == ids@.take(k as int)[m]);
                }
            }
        }
        k += 1;
    }
    assert(ids@.take(k as int) =~= ids@);
    let mut p: usize = 0;
    while p < catalog.projects.len()
        invariant
            p <= catalog.projects@.len(),
            ids == &options.selected_thread_ids,
            all_known(*catalog, ids@),
            forall|q: int|
                0 <= q < p && project_selected(#[trigger] catalog.projects@[q], ids@)
                    ==> project_resolvable(catalog.projects@[q], *options, platform, present_dirs@),
        decreases catalog.projects@.len() - p,
    {
        let project = &catalog.projects[p];
        if any_selected(project, ids.as_slice()) {
            let cwd = normalize(project.original_cwd.as_str());
            let mapped = map_explicit(cwd.as_str(), options.mappings.as_slice(), &platform);
            if mapped.is_none() && !contains_string(present_dirs, cwd.as_str()) && !contains_string(
                options.history_only_projects.as_slice(),
                cwd.as_str(),
            ) {
                return Err(SelectionError::NeedsFolder(project.original_cwd.clone()));
            }
        }
        p += 1;
    }
    Ok(())
}

// ---------------------------------------------------------------------------
// Scanning and planning

/// Why a source home cannot be presented or imported.
#[derive(Debug, Clone, PartialEq, Eq)]
pub enum ImportError {
    /// The source home holds no session rollout.
    NoRollouts(String),
    /// The selections were refused.
    Selection(SelectionError),
    /// The plan could not be made.
    Plan(PlanError),
    /// The plan holds this many divergent copies of one thread id.
    Conflicts(usize),
}

impl ImportError {
    /// The message shown to the user.
    pub fn message(&self) -> (s: String)
        ensures
            s@ == match self {
                ImportError::NoRollouts(root) => "no session rollout files found in "@ + root@,
                ImportError::Selection(e) => selection_message(*e),
                ImportError::Plan(e) => crate::merge::plan_message(*e),
                ImportError::Conflicts(n) => "import contains "@ + crate::sqlite_adapter::decimal(
                    *n as nat,
                ) + " selected divergent UUID conflict(s)"@,
            },
    {
        match self {
            ImportError::NoRollouts(root) => {
                let mut out = String::new();
                string_push_str(&mut out, "no session rollout files found in ");
                string_push_str(&mut out, root.as_str());
                out
            },
            ImportError::Selection(e) => e.message(),
            ImportError::Plan(e) => e.message(),
            ImportError::Conflicts(n) => {
                let mut digits: Vec<char> = Vec::new();
                crate::sqlite_adapter::push_decimal(&mut digits, *n);
                let mut out = String::new();
                string_push_str(&mut out, "import contains ");
                string_push_str(&mut out, crate::text::string_of(digits.as_slice()).as_str());
                string_push_str(&mut out, " selected divergent UUID conflict(s)");
                out
            },
        }
    }
}

/// The catalog of a source home from the threads its scan found; a home
/// without any rollout is refused.
///
/// `present_dirs` are the project folders that exist on this device.
pub fn scan_source(source_root: &str, threads: &[ScannedThread], present_dirs: &[String]) -> (r:
    Result<SourceCatalog, ImportError>)
    ensures
        match r {
            Err(ImportError::NoRollouts(root)) => threads@.len() == 0 && root@ == source_root@,
            Err(_) => false,
            Ok(c) => threads@.len() > 0 && is_catalog_of(c, source_root@, threads@, present_dirs@),
        },
{
    if threads.len() == 0 {
        return Err(ImportError::NoRollouts(source_root.to_owned()));
    }
    Ok(build_catalog(source_root, threads, present_dirs))
}

/// What [`plan_directory_import`] gives: the plan of the selected threads
/// against a catalog of the source made as [`build_catalog`] makes it, after
/// the selections were accepted; else why the selections or the plan were
/// refused.
pub open spec fn directory_plan_outcome(
    r: Result<ImportPlan, ImportError>,
    source_root: Seq<char>,
    source_threads: Seq<ScannedThread>,
    existing_threads: Seq<ScannedThread>,
    codex_home: Seq<char>,
    platform: PlatformKind,
    options: ImportOptions,
    present_dirs: Seq<String>,
) -> bool {
    match r {
        Ok(plan) => exists|catalog: SourceCatalog|
            {
                &&& is_catalog_of(catalog, source_root, source_threads, present_dirs)
                &&& selections_valid(catalog, options, platform, present_dirs)
                &&& is_import_plan(
                    plan,
                    catalog,
                    source_threads,
                    existing_threads,
                    codex_home,
                    platform,
                    options,
                    present_dirs,
                )
            },
        Err(ImportError::Selection(e)) => exists|catalog: SourceCatalog|
            {
                &&& is_catalog_of(catalog, source_root, source_threads, present_dirs)
                &&& is_selection_error(e, catalog, options, platform, present_dirs)
            },
        Err(ImportError::Plan(e)) => {
            &&& exists|catalog: SourceCatalog|
                is_catalog_of(catalog, source_root, source_threads, present_dirs)
                    && selections_valid(catalog, options, platform, present_dirs)
            &&& is_plan_error(e, source_threads, codex_home, platform, options, present_dirs)
        },
        Err(_) => false,
    }
}

/// The plan of importing the selected threads of a source home into the
/// home `codex_home`: the source's catalog is built, the selections are
/// checked against it, and the plan is made.
///
/// `platform` is this device's and `present_dirs` the project folders that
/// exist on it; `existing_threads` are the threads of `codex_home`.
pub fn plan_directory_import(
    source_root: &str,
    source_threads: &[ScannedThread],
    existing_threads: &[ScannedThread],
    codex_home: &str,
    platform: PlatformKind,
    options: &ImportOptions,
    present_dirs: &[String],
) -> (r: Result<ImportPlan, ImportError>)
    ensures
        directory_plan_outcome(
            r,
            source_root@,
            source_threads@,
            existing_threads@,
            codex_home@,
            platform,
            *options,
            present_dirs@,
        ),
{
    let catalog = build_catalog(source_root, source_threads, present_dirs);
    match validate_options(&catalog, options, platform, present_dirs) {
        Err(e) => {
            return Err(ImportError::Selection(e));
        },
        Ok(()) => {},
    }
    match build_plan(
        &catalog,
        source_threads,
        existing_threads,
        codex_home,
        platform,
        options,
        present_dirs,
    ) {
        Ok(plan) => Ok(plan),
        Err(e) => Err(ImportError::Plan(e)),
    }
}

/// The plan that an import carries out: the plan of
/// [`plan_directory_import`], refused when it holds a conflict.
pub fn import_directory(
    source_root: &str,
    source_threads: &[ScannedThread],
    existing_threads: &[ScannedThread],
    codex_home: &str,
    platform: PlatformKind,
    options: &ImportOptions,
    present_dirs: &[String],
) -> (r: Result<ImportPlan, ImportError>)
    ensures
        match r {
            Ok(plan) => plan.conflicts == 0 && directory_plan_outcome(
                Ok(plan),
                source_root@,
                source_threads@,
                existing_threads@,
                codex_home@,
                platform,
                *options,
                present_dirs@,
            ),
            Err(ImportError::Conflicts(n)) => n > 0 && exists|plan: ImportPlan|
                plan.conflicts == n && directory_plan_outcome(
                    Ok(plan),
                    source_root@,
                    source_threads@,
                    existing_threads@,
                    codex_home@,
                    platform,
                    *options,
                    present_dirs@,
                ),
            Err(e) => directory_plan_outcome(
                Err(e),
                source_root@,
                source_threads@,
                existing_threads@,
                codex_home@,
                platform,
                *options,
                present_dirs@,
            ),
        },
{
    let plan = plan_directory_import(
        source_root,
        source_threads,
        existing_threads,
        codex_home,
        platform,
        options,
        present_dirs,
    )?;
    if plan.conflicts > 0 {
        return Err(ImportError::Conflicts(plan.conflicts));
    }
    Ok(plan)
}

// ---------------------------------------------------------------------------
// Summaries

/// What an export produced.
#[derive(Debug, Clone)]
pub struct ExportSummary {
    pub output: String,
    pub thread_count: usize,
}

/// What an import did.
#[derive(Debug, Clone)]
pub struct ImportSummary {
    pub transaction_id: String,
    pub imported: usize,
    pub refreshed: usize,
    pub skipped: usize,
}

/// One import that can be rolled back.
#[derive(Debug, Clone)]
pub struct TransactionSummary {
    pub id: String,
    pub created_at: String,
    pub source_codex_home: String,
    pub completed: bool,
}

impl Ranked for TransactionSummary {
    /// The later import comes first.
    open spec fn precedes(a: Self, b: Self) -> bool {
        seq_less(b.created_at@, a.created_at@)
    }

    fn goes_before(&self, other: &Self) -> (r: bool) {
        str_less(other.created_at.as_str(), self.created_at.as_str())
    }
}

/// The summary of a transaction record.
pub open spec fn summary_of(r: TransactionRecord) -> TransactionSummary {
    TransactionSummary {
        id: r.id,
        created_at: r.created_at,
        source_codex_home: r.source_codex_home,
        completed: r.completed,
    }
}

/// The imports that can be rolled back, latest first (by their creation
/// time), from their transaction records.
pub fn list_transactions(records: &[TransactionRecord]) -> (list: Vec<TransactionSummary>)
    ensures
        list@ == sort_ranked(records@.map_values(|r: TransactionRecord| summary_of(r))),
{
    let mut all: Vec<TransactionSummary> = Vec::new();
    let mut i: usize = 0;
    while i < records.len()
        invariant
            i <= records@.len(),
            all@ == records@.take(i as int).map_values(|r: TransactionRecord| summary_of(r)),
        decreases records@.len() - i,
    {
        let r = &records[i];
        all.push(
            TransactionSummary {
                id: r.id.clone(),
                created_at: r.created_at.clone(),
                source_codex_home: r.source_codex_home.clone(),
                completed: r.completed,
            },
        );
        assert(all@ =~= records@.take(i + 1).map_values(|r: TransactionRecord| summary_of(r)));
        i += 1;
    }
    assert(records@.take(i as int) =~= records@);
    sort_stable(all)
}

// ---------------------------------------------------------------------------
// Copying a Codex home

/// The file names that hold login credentials, which a copy leaves behind.
pub open spec fn is_credential_name(name: Seq<char>) -> bool {
    let n = lower_seq(name);
    n == "auth.json"@ || n == "auth.json.bak"@ || n == "credentials.json"@ || n
        == "tokens.json"@
}

/// Whether a path inside a Codex home, given by its components, is a login
/// credential file at the top of the home.
pub fn is_login_credential_path(components: &[String]) -> (r: bool)
    ensures
        r == (components@.len() == 1 && is_credential_name(components@[0]@)),
{
    if components.len() != 1 {
        return false;
    }
    let name = lower_chars(chars_of(components[0].as_str()).as_slice());
    let name = string_of(name.as_slice());
    str_equal(name.as_str(), "auth.json") || str_equal(name.as_str(), "auth.json.bak") || str_equal(
        name.as_str(),
        "credentials.json",
    ) || str_equal(name.as_str(), "tokens.json")
}

/// The fingerprint of a file's content: the lowercase hexadecimal SHA-256
/// digest of its bytes.
pub fn content_fingerprint(bytes: &[u8]) -> (s: String)
    ensures
        s@ == hex_lower(sha256_of(bytes@)),
        s@.len() == 64,
{
    let digest = sha256_digest(bytes);
    proof {
        lemma_hex_lower_len(digest@);
    }
    hex_encode(digest.as_slice())
}

/// Whether a copied file, given by its components inside the Codex home, is
/// a thread's rollout: a `jsonl` file under `sessions` or
/// `archived_sessions`.
pub fn is_thread_rollout(components: &[String]) -> (r: bool)
    ensures
        r == (components@.len() >= 1 && (components@[0]@ == "sessions"@ || components@[0]@
            == "archived_sessions"@) && crate::text::ends_with(
            components@.last()@,
            ".jsonl"@,
        ) && components@.last()@.len() > 6),
{
    if components.len() == 0 {
        return false;
    }
    let first = components[0].as_str();
    (str_equal(first, "sessions") || str_equal(first, "archived_sessions"))
        && crate::scanner::is_rollout_name(components[components.len() - 1].as_str())
}

// ---------------------------------------------------------------------------
// Projects

/// Some thread of the plan that keeps its folder goes to `cwd`.
pub open spec fn registers(threads: Seq<PlannedThread>, cwd: Seq<char>) -> bool {
    exists|k: int|
        0 <= k < threads.len() && !threads[k].history_only && (#[trigger] threads[k]).mapped_cwd@
            == cwd
}

/// The project folders that an import registers with Codex Desktop: those of
/// the planned threads not kept as history only, ascending, each once.
pub fn projects_to_register(threads: &[PlannedThread]) -> (projects: Vec<String>)
    ensures
        ascending(projects@),
        forall|x: Seq<char>| #[trigger] has_key(projects@, x) <==> registers(threads@, x),
{
    let mut projects: Vec<String> = Vec::new();
    let mut i: usize = 0;
    while i < threads.len()
        invariant
            i <= threads@.len(),
            ascending(projects@),
            forall|x: Seq<char>| #[trigger] has_key(projects@, x) <==> registers(threads@.take(i as int), x),
        decreases threads@.len() - i,
    {
        let ghost seen = threads@.take(i as int);
        let ghost next = threads@.take(i + 1);
        proof {
            assert forall|x: Seq<char>| registers(next, x) <==> (registers(seen, x) || (
            !threads@[i as int].history_only && threads@[i as int].mapped_cwd@ == x)) by {
                if registers(next, x) {
                    let w = choose|k: int|
                        0 <= k < next.len() && !next[k].history_only && (#[trigger] next[k]).mapped_cwd@
                            == x;
                    if w < i {
                        assert(seen[w] == next[w]);
                    }
                }
                if registers(seen, x) {
                    let w = choose|k: int|
                        0 <= k < seen.len() && !seen[k].history_only && (#[trigger] seen[k]).mapped_cwd@
                            == x;
                    assert(next[w] == seen[w]);
                }
                if !threads@[i as int].history_only && threads@[i as int].mapped_cwd@ == x {
                    assert(next[i as int] == threads@[i as int]);
                }
            }
        }
        if !threads[i].history_only {
            insert_sorted(&mut projects, threads[i].mapped_cwd.clone());
        }
        i += 1;
    }
    assert(threads@.take(i as int) =~= threads@);
    projects
}

proof fn lemma_sessions_in(threads: Seq<ScannedThread>, cwd: Seq<char>, x: SourceSession)
    ensures
        sessions_in(threads, cwd).contains(x) <==> exists|k: int|
            0 <= k < threads.len() && project_key(threads[k]) == cwd && #[trigger] session_of(
                threads[k],
            ) == x,
    decreases threads.len(),
{
    if threads.len() > 0 {
        let rest = threads.drop_last();
        lemma_sessions_in(rest, cwd, x);
        let r = sessions_in(rest, cwd);
        let last = threads.last();
        if exists|k: int|
            0 <= k < threads.len() && project_key(threads[k]) == cwd && #[trigger] session_of(
                threads[k],
            ) == x {
            let k = choose|k: int|
                0 <= k < threads.len() && project_key(threads[k]) == cwd && #[trigger] session_of(
                    threads[k],
                ) == x;
            if k < threads.len() - 1 {
                assert(rest[k] == threads[k]);
                let i = choose|i: int| 0 <= i < r.len() && r[i] == x;
                if project_key(last) == cwd {
                    assert(r.push(session_of(last))[i] == x);
                }
            } else {
                assert(r.push(session_of(last))[r.len() as int] == x);
            }
        }
        if sessions_in(threads, cwd).contains(x) {
            let full = sessions_in(threads, cwd);
            let i = choose|i: int| 0 <= i < full.len() && full[i] == x;
            if project_key(last) == cwd && i == r.len() {
                assert(session_of(threads[threads.len() - 1]) == x);
            } else {
                assert(r[i] == x);
                let k = choose|k: int|
                    0 <= k < rest.len() && project_key(rest[k]) == cwd && #[trigger] session_of(
                        rest[k],
                    ) == x;
                assert(threads[k] == rest[k]);
            }
        }
    }
}

proof fn lemma_listed(p: SourceProject, threads: Seq<ScannedThread>, present_dirs: Seq<String>, x: SourceSession)
    requires
        project_spec(p, threads, present_dirs),
    ensures
        p.sessions@.contains(x) <==> exists|k: int|
            0 <= k < threads.len() && project_key(threads[k]) == p.original_cwd@ && #[trigger] session_of(
                threads[k],
            ) == x,
{
    broadcast use vstd::seq_lib::to_multiset_contains;

    let listed = sessions_in(threads, p.original_cwd@);
    law_sort_is_permutation(listed);
    lemma_sessions_in(threads, p.original_cwd@, x);
    assert(p.sessions@.contains(x) <==> p.sessions@.to_multiset().count(x) > 0);
    assert(listed.contains(x) <==> listed.to_multiset().count(x) > 0);
}

/// The thread is a session of the catalog's project for its folder.
pub open spec fn listed_in(c: SourceCatalog, t: ScannedThread) -> bool {
    exists|i: int|
        0 <= i < c.projects@.len() && c.projects@[i].original_cwd@ == project_key(t)
            && c.projects@[i].sessions@.contains(session_of(t))
}

/// The session is one of the threads of the folder `cwd`.
pub open spec fn from_thread(threads: Seq<ScannedThread>, cwd: Seq<char>, x: SourceSession) -> bool {
    exists|k: int| 0 <= k < threads.len() && project_key(threads[k]) == cwd && session_of(threads[k]) == x
}

proof fn lemma_every_thread_listed(
    c: SourceCatalog,
    threads: Seq<ScannedThread>,
    present_dirs: Seq<String>,
    k: int,
)
    requires
        0 <= k < threads.len(),
        has_key(project_names(c), project_key(threads[k])),
        forall|i: int|
            0 <= i < c.projects@.len() ==> project_spec(#[trigger] c.projects@[i], threads, present_dirs),
    ensures
        listed_in(c, threads[k]),
{
    let i = choose|i: int|
        0 <= i < project_names(c).len() && #[trigger] project_names(c)[i]@ == project_key(threads[k]);
    let p = c.projects@[i];
    assert(project_names(c)[i] == p.original_cwd);
    assert(project_spec(p, threads, present_dirs));
    lemma_listed(p, threads, present_dirs, session_of(threads[k]));
}

proof fn lemma_only_threads_listed(
    c: SourceCatalog,
    threads: Seq<ScannedThread>,
    present_dirs: Seq<String>,
    i: int,
    j: int,
)
    requires
        0 <= i < c.projects@.len(),
        0 <= j < c.projects@[i].sessions@.len(),
        project_spec(c.projects@[i], threads, present_dirs),
    ensures
        from_thread(threads, c.projects@[i].original_cwd@, c.projects@[i].sessions@[j]),
{
    let p = c.projects@[i];
    let x = p.sessions@[j];
    assert(p.sessions@.contains(x));
    lemma_listed(p, threads, present_dirs, x);
}

/// A catalog lists every scanned thread, and only those: each thread is a
/// session of the project of its folder, and each session of a project is
/// a thread of that folder.
pub proof fn law_catalog_lists_every_thread(
    c: SourceCatalog,
    source_root: Seq<char>,
    threads: Seq<ScannedThread>,
    present_dirs: Seq<String>,
)
    requires
        is_catalog_of(c, source_root, threads, present_dirs),
    ensures
        forall|k: int| 0 <= k < threads.len() ==> listed_in(c, #[trigger] threads[k]),
        forall|i: int, j: int|
            0 <= i < c.projects@.len() && 0 <= j < c.projects@[i].sessions@.len() ==> from_thread(
                threads,
                c.projects@[i].original_cwd@,
                #[trigger] c.projects@[i].sessions@[j],
            ),
{
    assert forall|k: int| 0 <= k < threads.len() implies listed_in(c, #[trigger] threads[k]) by {
        lemma_every_thread_listed(c, threads, present_dirs, k);
    }
    assert forall|i: int, j: int|
        0 <= i < c.projects@.len() && 0 <= j < c.projects@[i].sessions@.len() implies from_thread(
            threads,
            c.projects@[i].original_cwd@,
            #[trigger] c.projects@[i].sessions@[j],
        ) by {
        lemma_only_threads_listed(c, threads, present_dirs, i, j);
    }
}

proof fn lemma_last_with_id_found(threads: Seq<ScannedThread>, id: Seq<char>, i: int)
    requires
        0 <= i < threads.len(),
        threads[i].record.id@ == id,
    ensures
        last_with_id(threads, id) matches Some(j) && 0 <= j < threads.len()
            && threads[j].record.id@ == id,
    decreases threads.len(),
{
    if threads.last().record.id@ != id {
        lemma_last_with_id_found(threads.drop_last(), id, i);
    }
}

/// A selected id of accepted selections finds its thread and a folder.
proof fn lemma_selected_entry_mapped(
    catalog: SourceCatalog,
    source_root: Seq<char>,
    threads: Seq<ScannedThread>,
    codex_home: Seq<char>,
    platform: PlatformKind,
    options: ImportOptions,
    present_dirs: Seq<String>,
    k: int,
)
    requires
        is_catalog_of(catalog, source_root, threads, present_dirs),
        selections_valid(catalog, options, platform, present_dirs),
        forall|i: int|
            0 <= i < threads.len() ==> normalize_spec(#[trigger] project_key(threads[i]))
                == project_key(threads[i]),
        0 <= k < options.selected_thread_ids@.len(),
    ensures
        entry_outcome(
            options.selected_thread_ids@[k]@,
            threads,
            codex_home,
            options,
            platform,
            present_dirs,
        ) is Mapped,
{
    let ids = options.selected_thread_ids@;
    let x = ids[k]@;
    law_catalog_lists_every_thread(catalog, source_root, threads, present_dirs);
    assert(catalog_has_thread(catalog, x));
    let (p, s) = choose|p: int, s: int|
        0 <= p < catalog.projects@.len() && 0 <= s < catalog.projects@[p].sessions@.len()
            && (#[trigger] catalog.projects@[p].sessions@[s]).thread.id@ == x;
    assert(from_thread(threads, catalog.projects@[p].original_cwd@, catalog.projects@[p].sessions@[s]));
    let i = choose|i: int|
        0 <= i < threads.len() && project_key(threads[i]) == catalog.projects@[p].original_cwd@
            && session_of(threads[i]) == catalog.projects@[p].sessions@[s];
    lemma_last_with_id_found(threads, x, i);
    let j = last_with_id(threads, x)->0;
    assert(listed_in(catalog, threads[j]));
    let q = choose|q: int|
        0 <= q < catalog.projects@.len() && catalog.projects@[q].original_cwd@ == project_key(threads[j])
            && catalog.projects@[q].sessions@.contains(session_of(threads[j]));
    let proj = catalog.projects@[q];
    let t = choose|t: int| 0 <= t < proj.sessions@.len() && proj.sessions@[t] == session_of(threads[j]);
    assert(has_string(ids, proj.sessions@[t].thread.id@));
    assert(project_selected(proj, ids));
    assert(project_resolvable(proj, options, platform, present_dirs));
    assert(normalize_spec(project_key(threads[j])) == project_key(threads[j]));
}

/// Selections that the check accepts can always be planned: every selected
/// id finds its thread in the source and a folder on this device, so
/// planning a source home never ends in a plan error (for source threads
/// whose project folder is already in normal form once normalized).
pub proof fn law_accepted_selections_plan(
    catalog: SourceCatalog,
    source_root: Seq<char>,
    threads: Seq<ScannedThread>,
    existing: Seq<ScannedThread>,
    codex_home: Seq<char>,
    platform: PlatformKind,
    options: ImportOptions,
    present_dirs: Seq<String>,
)
    requires
        is_catalog_of(catalog, source_root, threads, present_dirs),
        selections_valid(catalog, options, platform, present_dirs),
        forall|i: int|
            0 <= i < threads.len() ==> normalize_spec(#[trigger] project_key(threads[i]))
                == project_key(threads[i]),
    ensures
        forall|k: int|
            0 <= k < options.selected_thread_ids@.len() ==> #[trigger] entry_outcome(
                options.selected_thread_ids@[k]@,
                threads,
                codex_home,
                options,
                platform,
                present_dirs,
            ) is Mapped,
        forall|e: PlanError| !is_plan_error(e, threads, codex_home, platform, options, present_dirs),
        forall|e: PlanError|
            !directory_plan_outcome(
                Err(ImportError::Plan(e)),
                source_root,
                threads,
                existing,
                codex_home,
                platform,
                options,
                present_dirs,
            ),
{
    assert forall|k: int| 0 <= k < options.selected_thread_ids@.len() implies #[trigger] entry_outcome(
        options.selected_thread_ids@[k]@,
        threads,
        codex_home,
        options,
        platform,
        present_dirs,
    ) is Mapped by {
        lemma_selected_entry_mapped(
            catalog,
            source_root,
            threads,
            codex_home,
            platform,
            options,
            present_dirs,
            k,
        );
    }
    assert forall|e: PlanError| !is_plan_error(e, threads, codex_home, platform, options, present_dirs) by {
        if is_plan_error(e, threads, codex_home, platform, options, present_dirs) {
            let k = choose|k: int|
                0 <= k < options.selected_thread_ids@.len() && (forall|m: int|
                    0 <= m < k ==> #[trigger] entry_outcome(
                        options.selected_thread_ids@[m]@,
                        threads,
                        codex_home,
                        options,
                        platform,
                        present_dirs,
                    ) is Mapped) && plan_error_of(
                    entry_outcome(
                        options.selected_thread_ids@[k]@,
                        threads,
                        codex_home,
                        options,
                        platform,
                        present_dirs,
                    ),
                    options.selected_thread_ids@[k]@,
                ) == Some(crate::merge::plan_error_view(e));
            lemma_selected_entry_mapped(
                catalog,
                source_root,
                threads,
                codex_home,
                platform,
                options,
                present_dirs,
                k,
            );
        }
    }
}

/// A catalog lists the sessions of each project most recently updated
/// first.
pub proof fn law_catalog_sessions_newest_first(
    c: SourceCatalog,
    source_root: Seq<char>,
    threads: Seq<ScannedThread>,
    present_dirs: Seq<String>,
)
    requires
        is_catalog_of(c, source_root, threads, present_dirs),
    ensures
        forall|p: int, i: int, j: int|
            0 <= p < c.projects@.len() && 0 <= i < j < c.projects@[p].sessions@.len() ==> (
            #[trigger] c.projects@[p].sessions@[i]).thread.updated_at >= (
            #[trigger] c.projects@[p].sessions@[j]).thread.updated_at,
{
    assert(crate::order::strict_weak::<SourceSession>());
    assert forall|p: int, i: int, j: int|
        0 <= p < c.projects@.len() && 0 <= i < j < c.projects@[p].sessions@.len() implies (
        #[trigger] c.projects@[p].sessions@[i]).thread.updated_at >= (
        #[trigger] c.projects@[p].sessions@[j]).thread.updated_at by {
        let proj = c.projects@[p];
        assert(project_spec(proj, threads, present_dirs));
        crate::order::law_sort_is_sorted(sessions_in(threads, proj.original_cwd@));
        assert(!<SourceSession as Ranked>::precedes(proj.sessions@[j], proj.sessions@[i]));
    }
}

/// How many sessions the projects list in all.
pub open spec fn sessions_listed(projects: Seq<SourceProject>) -> nat
    decreases projects.len(),
{
    if projects.len() == 0 {
        0
    } else {
        sessions_listed(projects.drop_last()) + projects.last().sessions@.len()
    }
}

/// How many threads have one of `keys` as their project folder, counted
/// once per key.
spec fn key_total(keys: Seq<String>, threads: Seq<ScannedThread>) -> nat
    decreases keys.len(),
{
    if keys.len() == 0 {
        0
    } else {
        key_total(keys.drop_last(), threads) + sessions_in(threads, keys.last()@).len()
    }
}

/// How many of `keys` are `x`.
spec fn key_count(keys: Seq<String>, x: Seq<char>) -> nat
    decreases keys.len(),
{
    if keys.len() == 0 {
        0
    } else {
        key_count(keys.drop_last(), x) + if keys.last()@ == x {
            1nat
        } else {
            0nat
        }
    }
}

proof fn lemma_key_total_empty(keys: Seq<String>, threads: Seq<ScannedThread>)
    requires
        threads.len() == 0,
    ensures
        key_total(keys, threads) == 0,
    decreases keys.len(),
{
    if keys.len() > 0 {
        lemma_key_total_empty(keys.drop_last(), threads);
    }
}

proof fn lemma_key_total_step(keys: Seq<String>, threads: Seq<ScannedThread>)
    requires
        threads.len() > 0,
    ensures
        key_total(keys, threads) == key_total(keys, threads.drop_last()) + key_count(
            keys,
            project_key(threads.last()),
        ),
    decreases keys.len(),
{
    if keys.len() > 0 {
        lemma_key_total_step(keys.drop_last(), threads);
    }
}

proof fn lemma_key_count_zero(keys: Seq<String>, x: Seq<char>)
    requires
        forall|i: int| 0 <= i < keys.len() ==> (#[trigger] keys[i])@ != x,
    ensures
        key_count(keys, x) == 0,
    decreases keys.len(),
{
    if keys.len() > 0 {
        let init = keys.drop_last();
        assert(keys[keys.len() - 1]@ != x);
        assert forall|i: int| 0 <= i < init.len() implies (#[trigger] init[i])@ != x by {
            assert(init[i] == keys[i]);
        }
        lemma_key_count_zero(init, x);
    }
}

proof fn lemma_key_count_one(keys: Seq<String>, x: Seq<char>)
    requires
        ascending(keys),
        has_key(keys, x),
    ensures
        key_count(keys, x) == 1,
    decreases keys.len(),
{
    let init = keys.drop_last();
    let last = keys.len() - 1;
    assert(ascending(init)) by {
        assert forall|i: int, j: int| 0 <= i < j < init.len() implies seq_less(
            #[trigger] init[i]@,
            #[trigger] init[j]@,
        ) by {
            assert(init[i] == keys[i] && init[j] == keys[j]);
        }
    }
    if keys[last]@ == x {
        assert forall|i: int| 0 <= i < init.len() implies (#[trigger] init[i])@ != x by {
            assert(init[i] == keys[i]);
            assert(seq_less(keys[i]@, keys[last]@));
            crate::text::lemma_seq_less_irreflexive(x);
        }
        lemma_key_count_zero(init, x);
    } else {
        let w = choose|w: int| 0 <= w < keys.len() && #[trigger] keys[w]@ == x;
        assert(init[w] == keys[w]);
        lemma_key_count_one(init, x);
    }
}

proof fn lemma_key_total_all(keys: Seq<String>, threads: Seq<ScannedThread>)
    requires
        ascending(keys),
        forall|k: int| 0 <= k < threads.len() ==> has_key(keys, #[trigger] project_key(threads[k])),
    ensures
        key_total(keys, threads) == threads.len(),
    decreases threads.len(),
{
    if threads.len() == 0 {
        lemma_key_total_empty(keys, threads);
    } else {
        let init = threads.drop_last();
        assert forall|k: int| 0 <= k < init.len() implies has_key(
            keys,
            #[trigger] project_key(init[k]),
        ) by {
            assert(init[k] == threads[k]);
        }
        lemma_key_total_all(keys, init);
        lemma_key_total_step(keys, threads);
        assert(has_key(keys, project_key(threads[threads.len() - 1])));
        lemma_key_count_one(keys, project_key(threads.last()));
    }
}

proof fn lemma_sessions_listed(
    projects: Seq<SourceProject>,
    threads: Seq<ScannedThread>,
    present_dirs: Seq<String>,
)
    requires
        forall|i: int| 0 <= i < projects.len() ==> project_spec(#[trigger] projects[i], threads, present_dirs),
    ensures
        sessions_listed(projects) == key_total(
            projects.map_values(|p: SourceProject| p.original_cwd),
            threads,
        ),
    decreases projects.len(),
{
    if projects.len() > 0 {
        let init = projects.drop_last();
        let last = projects.len() - 1;
        assert forall|i: int| 0 <= i < init.len() implies project_spec(
            #[trigger] init[i],
            threads,
            present_dirs,
        ) by {
            assert(init[i] == projects[i]);
        }
        lemma_sessions_listed(init, threads, present_dirs);
        let names = projects.map_values(|p: SourceProject| p.original_cwd);
        assert(names.drop_last() =~= init.map_values(|p: SourceProject| p.original_cwd));
        assert(project_spec(projects[last], threads, present_dirs));
        law_sort_is_permutation(sessions_in(threads, projects[last].original_cwd@));
    }
}

/// Every scanned thread is listed exactly once: the sessions of the
/// catalog's projects add up to its thread count, the number of threads.
pub proof fn law_catalog_sessions_add_up(
    c: SourceCatalog,
    source_root: Seq<char>,
    threads: Seq<ScannedThread>,
    present_dirs: Seq<String>,
)
    requires
        is_catalog_of(c, source_root, threads, present_dirs),
    ensures
        sessions_listed(c.projects@) == c.thread_count,
        c.thread_count == threads.len(),
{
    lemma_sessions_listed(c.projects@, threads, present_dirs);
    lemma_key_total_all(project_names(c), threads);
}

} // verus!
