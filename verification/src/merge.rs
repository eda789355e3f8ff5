//! The merge rules: how a selected source thread meets the target Codex home.
use crate::model::{
    ImportOptions, ImportPlan, MergeAction, PlannedThread, PlatformKind, ScannedThread,
    SourceCatalog,
};
use crate::path_mapper::{
    history_only_path, history_only_spec, join_path, join_spec, map_explicit, map_explicit_spec,
    normalize, normalize_spec, pair_views,
};
use crate::rollout::{
    canonical_spec, canonicalize_cwd, law_canonical_ignores_recorded_cwd, same_but_cwd, split_on,
};
use crate::text::{
    lemma_seq_less_irreflexive, lemma_seq_less_total, lemma_seq_less_transitive, seq_less,
    str_equal, str_less, string_of,
};
use vstd::prelude::*;

verus! {

/// Whether the bytes `a` begin with the bytes `p`.
pub open spec fn bytes_start_with(a: Seq<u8>, p: Seq<u8>) -> bool {
    p.len() <= a.len() && a.take(p.len() as int) == p
}

pub fn bytes_starts_with(a: &[u8], p: &[u8]) -> (r: bool)
    ensures
        r == bytes_start_with(a@, p@),
{
    if p.len() > a.len() {
        return false;
    }
    let mut i: usize = 0;
    while i < p.len()
        invariant
            p@.len() <= a@.len(),
            i <= p@.len(),
            forall|k: int| 0 <= k < i ==> a@[k] == p@[k],
        decreases p@.len() - i,
    {
        if a[i] != p[i] {
            assert(a@.take(p@.len() as int)[i as int] != p@[i as int]);
            return false;
        }
        i += 1;
    }
    assert(a@.take(p@.len() as int) =~= p@);
    true
}

pub fn bytes_equal(a: &[u8], b: &[u8]) -> (r: bool)
    ensures
        r == (a@ == b@),
{
    if a.len() != b.len() {
        return false;
    }
    let r = bytes_starts_with(a, b);
    assert(a@.take(b@.len() as int) =~= a@);
    r
}

pub open spec fn reason_same_after_mapping() -> Seq<char> {
    "source and target differ only by mapped cwd metadata"@
}

pub open spec fn reason_normalized_target_prefix() -> Seq<char> {
    "target rollout is a normalized prefix of source"@
}

pub open spec fn reason_normalized_source_prefix() -> Seq<char> {
    "source rollout is a normalized prefix of target"@
}

pub open spec fn reason_byte_target_prefix() -> Seq<char> {
    "target rollout is a byte-for-byte prefix of source"@
}

pub open spec fn reason_byte_source_prefix() -> Seq<char> {
    "source rollout is a byte-for-byte prefix of target"@
}

pub open spec fn reason_divergent() -> Seq<char> {
    "same UUID has divergent rollout content"@
}

/// The merge rule for two copies of one thread, given their contents and
/// canonical forms: copies that agree up to the recorded cwd are the same;
/// otherwise the longer of two copies where one extends the other wins
/// (first in canonical form, then byte for byte); anything else is a
/// conflict. Divergent copies are never spliced.
pub open spec fn classify_spec(
    source: Seq<u8>,
    target: Seq<u8>,
    canonical_source: Option<Seq<u8>>,
    canonical_target: Option<Seq<u8>>,
) -> (MergeAction, Seq<char>) {
    if canonical_source is Some && canonical_target is Some && canonical_source->0
        == canonical_target->0 {
        (MergeAction::SkipIdentical, reason_same_after_mapping())
    } else if canonical_source is Some && canonical_target is Some && bytes_start_with(
        canonical_source->0,
        canonical_target->0,
    ) {
        (MergeAction::ReplaceWithLonger, reason_normalized_target_prefix())
    } else if canonical_source is Some && canonical_target is Some && bytes_start_with(
        canonical_target->0,
        canonical_source->0,
    ) {
        (MergeAction::KeepTargetLonger, reason_normalized_source_prefix())
    } else if bytes_start_with(source, target) {
        (MergeAction::ReplaceWithLonger, reason_byte_target_prefix())
    } else if bytes_start_with(target, source) {
        (MergeAction::KeepTargetLonger, reason_byte_source_prefix())
    } else {
        (MergeAction::Conflict, reason_divergent())
    }
}

/// The merge rule for two copies of one thread (see [`classify_spec`]),
/// with their canonical forms computed from their contents.
pub open spec fn compare_spec(source: Seq<u8>, target: Seq<u8>) -> (MergeAction, Seq<char>) {
    classify_spec(source, target, canonical_spec(source), canonical_spec(target))
}

pub open spec fn opt_bytes(o: Option<Vec<u8>>) -> Option<Seq<u8>> {
    match o {
        Some(b) => Some(b@),
        None => None,
    }
}

fn text(s: &str) -> (r: String)
    ensures
        r@ == s@,
{
    let v = crate::text::chars_of(s);
    string_of(v.as_slice())
}

/// The merge rule applied to two contents and their canonical forms (see
/// [`classify_spec`]).
pub fn classify_contents(
    source: &[u8],
    target: &[u8],
    canonical_source: &Option<Vec<u8>>,
    canonical_target: &Option<Vec<u8>>,
) -> (r: (MergeAction, String))
    ensures
        (r.0, r.1@) == classify_spec(
            source@,
            target@,
            opt_bytes(*canonical_source),
            opt_bytes(*canonical_target),
        ),
{
    if let (Some(cs), Some(ct)) = (canonical_source, canonical_target) {
        if bytes_equal(cs.as_slice(), ct.as_slice()) {
            return (
                MergeAction::SkipIdentical,
                text("source and target differ only by mapped cwd metadata"),
            );
        }
        if bytes_starts_with(cs.as_slice(), ct.as_slice()) {
            return (
                MergeAction::ReplaceWithLonger,
                text("target rollout is a normalized prefix of source"),
            );
        }
        if bytes_starts_with(ct.as_slice(), cs.as_slice()) {
            return (
                MergeAction::KeepTargetLonger,
                text("source rollout is a normalized prefix of target"),
            );
        }
    }
    if bytes_starts_with(source, target) {
        (MergeAction::ReplaceWithLonger, text("target rollout is a byte-for-byte prefix of source"))
    } else if bytes_starts_with(target, source) {
        (MergeAction::KeepTargetLonger, text("source rollout is a byte-for-byte prefix of target"))
    } else {
        (MergeAction::Conflict, text("same UUID has divergent rollout content"))
    }
}

/// The merge rule for two copies of one thread (see [`compare_spec`]).
pub fn compare_contents(source: &[u8], target: &[u8]) -> (r: (MergeAction, String))
    ensures
        (r.0, r.1@) == compare_spec(source@, target@),
{
    let cs = canonicalize_cwd(source);
    let ct = canonicalize_cwd(target);
    classify_contents(source, target, &cs, &ct)
}

/// The action of the merge rule with the roles of source and target
/// exchanged.
pub open spec fn mirrored(a: MergeAction) -> MergeAction {
    match a {
        MergeAction::ReplaceWithLonger => MergeAction::KeepTargetLonger,
        MergeAction::KeepTargetLonger => MergeAction::ReplaceWithLonger,
        other => other,
    }
}

/// A copy of a thread whose recorded folders were mapped elsewhere is the
/// same thread: when source and target are the same rollout but for the
/// cwd of their `session_meta` and `turn_context` records (and the source
/// reads as JSON), the target is kept as identical.
pub proof fn law_mapped_copy_is_identical(source: Seq<u8>, target: Seq<u8>)
    requires
        same_but_cwd(split_on(source, 10u8), split_on(target, 10u8)),
        canonical_spec(source) is Some,
    ensures
        compare_spec(source, target) == (MergeAction::SkipIdentical, reason_same_after_mapping()),
{
    law_canonical_ignores_recorded_cwd(source, target);
}

/// The merge rule is symmetric: for two different contents, exchanging
/// source and target exchanges "use the longer source" and "keep the longer
/// target", and keeps "identical" and "conflict".
pub proof fn law_compare_symmetric(source: Seq<u8>, target: Seq<u8>)
    requires
        source != target,
    ensures
        compare_spec(target, source).0 == mirrored(compare_spec(source, target).0),
{
    let cs = canonical_spec(source);
    let ct = canonical_spec(target);
    if cs is Some && ct is Some {
        let a = cs->0;
        let b = ct->0;
        if a != b && bytes_start_with(a, b) {
            assert(!bytes_start_with(b, a)) by {
                if bytes_start_with(b, a) {
                    assert(a.len() == b.len());
                    assert(a =~= a.take(b.len() as int));
                }
            }
        }
        if a != b && bytes_start_with(b, a) {
            assert(!bytes_start_with(a, b)) by {
                if bytes_start_with(a, b) {
                    assert(a.len() == b.len());
                    assert(b =~= b.take(a.len() as int));
                }
            }
        }
    }
    if bytes_start_with(source, target) {
        assert(!bytes_start_with(target, source)) by {
            if bytes_start_with(target, source) {
                assert(source.len() == target.len());
                assert(source =~= source.take(target.len() as int));
            }
        }
    }
}

/// A thread is replaced only by a copy that extends it, and kept only when
/// it extends the incoming copy: in canonical form or byte for byte.
pub proof fn law_longer_copy_wins(source: Seq<u8>, target: Seq<u8>)
    ensures
        compare_spec(source, target).0 == MergeAction::ReplaceWithLonger ==> ((canonical_spec(
            source,
        ) is Some && canonical_spec(target) is Some && bytes_start_with(
            canonical_spec(source)->0,
            canonical_spec(target)->0,
        )) || bytes_start_with(source, target)),
        compare_spec(source, target).0 == MergeAction::KeepTargetLonger ==> ((canonical_spec(
            source,
        ) is Some && canonical_spec(target) is Some && bytes_start_with(
            canonical_spec(target)->0,
            canonical_spec(source)->0,
        )) || bytes_start_with(target, source)),
        compare_spec(source, target).0 == MergeAction::Conflict ==> !bytes_start_with(
            source,
            target,
        ) && !bytes_start_with(target, source),
{
}

// ---------------------------------------------------------------------------
// Source lookup

/// The content of the first source thread read from `source_path`.
pub fn selected_source_bytes<'a>(source_threads: &'a [ScannedThread], source_path: &str) -> (r:
    Option<&'a [u8]>)
    ensures
        match r {
            Some(b) => exists|i: int|
                0 <= i < source_threads@.len() && source_threads@[i].source_path@ == source_path@
                    && b@ == source_threads@[i].content@ && forall|k: int|
                    0 <= k < i ==> source_threads@[k].source_path@ != source_path@,
            None => forall|k: int|
                0 <= k < source_threads@.len() ==> source_threads@[k].source_path@
                    != source_path@,
        },
{
    let mut i: usize = 0;
    while i < source_threads.len()
        invariant
            i <= source_threads@.len(),
            forall|k: int| 0 <= k < i ==> source_threads@[k].source_path@ != source_path@,
        decreases source_threads@.len() - i,
    {
        if crate::text::str_equal(source_threads[i].source_path.as_str(), source_path) {
            return Some(source_threads[i].content.as_slice());
        }
        i += 1;
    }
    None
}

// ---------------------------------------------------------------------------
// Import plan

/// Why an import plan could not be made.
#[derive(Debug, Clone, PartialEq, Eq)]
pub enum PlanError {
    /// A selected thread does not exist in the source.
    UnknownThread(String),
    /// The project of a selected thread has no folder on this device.
    UnmappedProject(String),
}

/// The message of a plan error.
pub open spec fn plan_message(e: PlanError) -> Seq<char> {
    match e {
        PlanError::UnknownThread(id) => "selected thread does not exist in source: "@ + id@,
        PlanError::UnmappedProject(cwd) => "selected project is not mapped: "@ + cwd@,
    }
}

impl PlanError {
    /// The message shown to the user.
    pub fn message(&self) -> (s: String)
        ensures
            s@ == plan_message(*self),
    {
        let mut out = String::new();
        match self {
            PlanError::UnknownThread(id) => {
                crate::text::string_push_str(&mut out, "selected thread does not exist in source: ");
                crate::text::string_push_str(&mut out, id.as_str());
            },
            PlanError::UnmappedProject(cwd) => {
                crate::text::string_push_str(&mut out, "selected project is not mapped: ");
                crate::text::string_push_str(&mut out, cwd.as_str());
            },
        }
        out
    }
}

/// The index of the last thread with this id (the one a map keyed by id
/// keeps).
pub open spec fn last_with_id(threads: Seq<ScannedThread>, id: Seq<char>) -> Option<int>
    decreases threads.len(),
{
    if threads.len() == 0 {
        None
    } else if threads.last().record.id@ == id {
        Some(threads.len() - 1)
    } else {
        last_with_id(threads.drop_last(), id)
    }
}

/// Whether one of the strings is `s`.
pub open spec fn has_string(list: Seq<String>, s: Seq<char>) -> bool {
    exists|i: int| 0 <= i < list.len() && list[i]@ == s
}

pub open spec fn migration_history_word() -> Seq<char> {
    "migration_history"@
}

/// The folder of a selected project on this device: its history-only
/// folder; else the folder an explicit mapping gives; else the project's own
/// path if it is a folder here; else none.
pub open spec fn mapped_cwd_spec(
    cwd: Seq<char>,
    history_only: bool,
    codex_home: Seq<char>,
    mappings: Seq<(Seq<char>, Seq<char>)>,
    platform: PlatformKind,
    present_dirs: Seq<String>,
) -> Option<Seq<char>> {
    if history_only {
        Some(history_only_spec(join_spec(codex_home, migration_history_word()), cwd))
    } else {
        match map_explicit_spec(cwd, mappings, platform) {
            Some(m) => Some(m),
            None => if has_string(present_dirs, cwd) {
                Some(cwd)
            } else {
                None
            },
        }
    }
}

pub open spec fn reason_absent() -> Seq<char> {
    "thread UUID is not present"@
}

pub open spec fn reason_same_hash() -> Seq<char> {
    "source and target hashes match"@
}

/// The merge rules: a thread the target lacks is imported; one with the same
/// content hash is skipped; otherwise the contents are compared.
pub open spec fn action_spec(source: ScannedThread, existing: Option<ScannedThread>) -> (
    MergeAction,
    Seq<char>,
) {
    match existing {
        None => (MergeAction::Import, reason_absent()),
        Some(t) => if t.record.sha256@ == source.record.sha256@ {
            (MergeAction::SkipIdentical, reason_same_hash())
        } else {
            compare_spec(source.content@, t.content@)
        },
    }
}

/// Where the thread's rollout lives after the import: the existing file
/// when it is kept, otherwise the source's place under the target home.
pub open spec fn target_path_spec(
    action: MergeAction,
    existing: Option<ScannedThread>,
    codex_home: Seq<char>,
    archive_path: Seq<char>,
) -> Seq<char> {
    match existing {
        Some(t) => if action == MergeAction::SkipIdentical || action
            == MergeAction::KeepTargetLonger {
            t.source_path@
        } else {
            join_spec(codex_home, archive_path)
        },
        None => join_spec(codex_home, archive_path),
    }
}

pub open spec fn existing_for(existing: Seq<ScannedThread>, id: Seq<char>) -> Option<
    ScannedThread,
> {
    match last_with_id(existing, id) {
        Some(j) => Some(existing[j]),
        None => None,
    }
}

/// The plan of one selected thread: `p` is the entry that the plan holds for
/// the source thread with index `src`.
pub open spec fn planned_entry(
    p: PlannedThread,
    source: ScannedThread,
    existing: Option<ScannedThread>,
    mapped: Seq<char>,
    history_only: bool,
    codex_home: Seq<char>,
) -> bool {
    let (action, reason) = action_spec(source, existing);
    &&& p.thread == source.record
    &&& p.source_path@ == source.source_path@
    &&& p.mapped_cwd@ == mapped
    &&& p.history_only == history_only
    &&& p.action == action
    &&& p.reason@ == reason
    &&& p.target_path@ == target_path_spec(action, existing, codex_home, source.record.archive_path@)
}

/// What planning gives one selected id: an error, or the source thread,
/// whether its project is history-only, and the folder it maps to.
pub enum EntryOutcome {
    Unknown,
    Unmapped(Seq<char>),
    Mapped(int, bool, Seq<char>),
}

pub open spec fn entry_outcome(
    id: Seq<char>,
    sources: Seq<ScannedThread>,
    codex_home: Seq<char>,
    options: ImportOptions,
    platform: PlatformKind,
    present_dirs: Seq<String>,
) -> EntryOutcome {
    match last_with_id(sources, id) {
        None => EntryOutcome::Unknown,
        Some(i) => {
            let cwd = normalize_spec(sources[i].record.cwd@);
            let history_only = has_string(options.history_only_projects@, cwd);
            match mapped_cwd_spec(
                cwd,
                history_only,
                codex_home,
                pair_views(options.mappings@),
                platform,
                present_dirs,
            ) {
                None => EntryOutcome::Unmapped(cwd),
                Some(m) => EntryOutcome::Mapped(i, history_only, m),
            }
        },
    }
}

/// The order of a plan: by project path, then the most recently updated
/// thread first.
pub open spec fn precedes(a: PlannedThread, b: PlannedThread) -> bool {
    seq_less(a.thread.cwd@, b.thread.cwd@) || (a.thread.cwd@ == b.thread.cwd@
        && a.thread.updated_at > b.thread.updated_at)
}

/// `x` inserted into `s` after every element it does not precede.
pub open spec fn insert_planned(s: Seq<PlannedThread>, x: PlannedThread) -> Seq<PlannedThread>
    decreases s.len(),
{
    if s.len() == 0 {
        seq![x]
    } else if precedes(x, s.last()) {
        insert_planned(s.drop_last(), x).push(s.last())
    } else {
        s.push(x)
    }
}

/// `s` in plan order, entries that neither precedes keeping their order
/// (a stable sort).
pub open spec fn sort_planned(s: Seq<PlannedThread>) -> Seq<PlannedThread>
    decreases s.len(),
{
    if s.len() == 0 {
        s
    } else {
        insert_planned(sort_planned(s.drop_last()), s.last())
    }
}

/// The number of conflicts in a plan.
pub open spec fn conflict_count(s: Seq<PlannedThread>) -> nat
    decreases s.len(),
{
    if s.len() == 0 {
        0
    } else {
        conflict_count(s.drop_last()) + if s.last().action == MergeAction::Conflict {
            1nat
        } else {
            0nat
        }
    }
}

pub open spec fn plan_error_of(o: EntryOutcome, id: Seq<char>) -> Option<PlanErrorView> {
    match o {
        EntryOutcome::Unknown => Some(PlanErrorView::UnknownThread(id)),
        EntryOutcome::Unmapped(cwd) => Some(PlanErrorView::UnmappedProject(cwd)),
        EntryOutcome::Mapped(_, _, _) => None,
    }
}

/// A plan error, by the views of its strings.
pub enum PlanErrorView {
    UnknownThread(Seq<char>),
    UnmappedProject(Seq<char>),
}

pub open spec fn plan_error_view(e: PlanError) -> PlanErrorView {
    match e {
        PlanError::UnknownThread(id) => PlanErrorView::UnknownThread(id@),
        PlanError::UnmappedProject(cwd) => PlanErrorView::UnmappedProject(cwd@),
    }
}

/// `p` is the plan entry of the selected `id`.
pub open spec fn planned_for_id(
    p: PlannedThread,
    id: Seq<char>,
    sources: Seq<ScannedThread>,
    existing: Seq<ScannedThread>,
    codex_home: Seq<char>,
    options: ImportOptions,
    platform: PlatformKind,
    present_dirs: Seq<String>,
) -> bool {
    match entry_outcome(id, sources, codex_home, options, platform, present_dirs) {
        EntryOutcome::Mapped(i, h, m) => planned_entry(
            p,
            sources[i],
            existing_for(existing, id),
            m,
            h,
            codex_home,
        ),
        _ => false,
    }
}

fn precedes_exec(a: &PlannedThread, b: &PlannedThread) -> (r: bool)
    ensures
        r == precedes(*a, *b),
{
    if str_less(a.thread.cwd.as_str(), b.thread.cwd.as_str()) {
        return true;
    }
    str_equal(a.thread.cwd.as_str(), b.thread.cwd.as_str()) && a.thread.updated_at
        > b.thread.updated_at
}

proof fn lemma_insert_at(s: Seq<PlannedThread>, x: PlannedThread, j: int)
    requires
        0 <= j <= s.len(),
        forall|m: int| j <= m < s.len() ==> precedes(x, #[trigger] s[m]),
        j == 0 || !precedes(x, s[j - 1]),
    ensures
        insert_planned(s, x) == s.insert(j, x),
    decreases s.len(),
{
    if s.len() == 0 {
        assert(s.insert(j, x) =~= seq![x]);
    } else if j == s.len() {
        assert(s.insert(j, x) =~= s.push(x));
    } else {
        assert(precedes(x, s[s.len() - 1]));
        lemma_insert_at(s.drop_last(), x, j);
        assert(s.drop_last().insert(j, x).push(s.last()) =~= s.insert(j, x));
    }
}

fn insert_planned_exec(v: &mut Vec<PlannedThread>, x: PlannedThread)
    ensures
        final(v)@ == insert_planned(old(v)@, x),
{
    let mut j = v.len();
    while j > 0 && precedes_exec(&x, &v[j - 1])
        invariant
            j <= v@.len(),
            v@ == old(v)@,
            forall|m: int| j <= m < v@.len() ==> precedes(x, #[trigger] v@[m]),
        decreases j,
    {
        j -= 1;
    }
    proof {
        lemma_insert_at(v@, x, j as int);
    }
    v.insert(j, x);
}

/// The entries in plan order (see [`sort_planned`]).
fn sort_plan(entries: Vec<PlannedThread>) -> (sorted: Vec<PlannedThread>)
    ensures
        sorted@ == sort_planned(entries@),
{
    let ghost all = entries@;
    let total = entries.len();
    let mut rest = entries;
    let mut sorted: Vec<PlannedThread> = Vec::new();
    let mut k: usize = 0;
    assert(all.take(0) =~= seq![]);
    assert(all.skip(0) =~= all);
    while rest.len() > 0
        invariant
            k <= all.len(),
            total == all.len(),
            rest@.len() + k == all.len(),
            rest@ == all.skip(k as int),
            sorted@ == sort_planned(all.take(k as int)),
        decreases rest@.len(),
    {
        let x = rest.remove(0);
        assert(all.take(k + 1).drop_last() =~= all.take(k as int));
        assert(all.skip(k + 1) =~= all.skip(k as int).remove(0));
        insert_planned_exec(&mut sorted, x);
        k += 1;
    }
    assert(all.take(k as int) =~= all);
    sorted
}

fn count_conflicts(v: &Vec<PlannedThread>) -> (n: usize)
    ensures
        n == conflict_count(v@),
{
    let mut n: usize = 0;
    let mut i: usize = 0;
    while i < v.len()
        invariant
            i <= v@.len(),
            n == conflict_count(v@.take(i as int)),
            n <= i,
        decreases v@.len() - i,
    {
        assert(v@.take(i + 1).drop_last() =~= v@.take(i as int));
        if v[i].action == MergeAction::Conflict {
            n += 1;
        }
        i += 1;
    }
    assert(v@.take(v@.len() as int) =~= v@);
    n
}

/// The index of the last thread with this id.
fn find_last_with_id(threads: &[ScannedThread], id: &str) -> (r: Option<usize>)
    ensures
        match r {
            Some(i) => last_with_id(threads@, id@) == Some(i as int) && i < threads@.len(),
            None => last_with_id(threads@, id@) is None,
        },
{
    let mut j = threads.len();
    assert(threads@.take(threads@.len() as int) =~= threads@);
    while j > 0
        invariant
            j <= threads@.len(),
            last_with_id(threads@, id@) == last_with_id(threads@.take(j as int), id@),
        decreases j,
    {
        let ghost t = threads@.take(j as int);
        assert(t.drop_last() =~= threads@.take(j - 1));
        if str_equal(threads[j - 1].record.id.as_str(), id) {
            return Some(j - 1);
        }
        j -= 1;
    }
    None
}

/// `plan` is the import plan of the selected threads: each is looked up in
/// the source and in the target and classified (see [`planned_for_id`]); the
/// entries are listed by project and then by recency, and the conflicts
/// among them are counted.
pub open spec fn is_import_plan(
    plan: ImportPlan,
    catalog: SourceCatalog,
    source_threads: Seq<ScannedThread>,
    existing_threads: Seq<ScannedThread>,
    codex_home: Seq<char>,
    platform: PlatformKind,
    options: ImportOptions,
    present_dirs: Seq<String>,
) -> bool {
    &&& plan.source_codex_home == catalog.source_codex_home
    &&& plan.codex_home@ == codex_home
    &&& exists|unsorted: Seq<PlannedThread>|
        {
            &&& unsorted.len() == options.selected_thread_ids@.len()
            &&& forall|k: int|
                0 <= k < unsorted.len() ==> #[trigger] planned_for_id(
                    unsorted[k],
                    options.selected_thread_ids@[k]@,
                    source_threads,
                    existing_threads,
                    codex_home,
                    options,
                    platform,
                    present_dirs,
                )
            &&& plan.threads@ == sort_planned(unsorted)
        }
    &&& plan.conflicts == conflict_count(plan.threads@)
}

/// `e` is the error of the first selected thread that cannot be planned:
/// one missing from the source, or one whose project has no folder here.
pub open spec fn is_plan_error(
    e: PlanError,
    source_threads: Seq<ScannedThread>,
    codex_home: Seq<char>,
    platform: PlatformKind,
    options: ImportOptions,
    present_dirs: Seq<String>,
) -> bool {
    exists|k: int|
        0 <= k < options.selected_thread_ids@.len() && (forall|m: int|
            0 <= m < k ==> #[trigger] entry_outcome(
                options.selected_thread_ids@[m]@,
                source_threads,
                codex_home,
                options,
                platform,
                present_dirs,
            ) is Mapped) && plan_error_of(
            entry_outcome(
                options.selected_thread_ids@[k]@,
                source_threads,
                codex_home,
                options,
                platform,
                present_dirs,
            ),
            options.selected_thread_ids@[k]@,
        ) == Some(plan_error_view(e))
}

/// Whether one of the strings equals `s`.
pub fn contains_string(list: &[String], s: &str) -> (r: bool)
    ensures
        r == has_string(list@, s@),
{
    let mut i: usize = 0;
    while i < list.len()
        invariant
            i <= list@.len(),
            forall|k: int| 0 <= k < i ==> list@[k]@ != s@,
        decreases list@.len() - i,
    {
        if str_equal(list[i].as_str(), s) {
            return true;
        }
        i += 1;
    }
    false
}

/// Builds the import plan of the selected threads: each is looked up in the
/// source (the last thread with its id) and in the target, given the folder
/// its project maps to, and classified by the merge rules; the plan lists
/// them by project and then by recency, and counts the conflicts.
///
/// `existing_threads` are the threads of the target home and
/// `present_dirs` the project paths that are folders on this device.
pub fn build_plan(
    catalog: &SourceCatalog,
    source_threads: &[ScannedThread],
    existing_threads: &[ScannedThread],
    codex_home: &str,
    platform: PlatformKind,
    options: &ImportOptions,
    present_dirs: &[String],
) -> (result: Result<ImportPlan, PlanError>)
    ensures
        match result {
            Ok(plan) => is_import_plan(
                plan,
                *catalog,
                source_threads@,
                existing_threads@,
                codex_home@,
                platform,
                *options,
                present_dirs@,
            ),
            Err(e) => is_plan_error(
                e,
                source_threads@,
                codex_home@,
                platform,
                *options,
                present_dirs@,
            ),
        },
{
    let ids = &options.selected_thread_ids;
    let mut unsorted: Vec<PlannedThread> = Vec::new();
    let mut i: usize = 0;
    while i < ids.len()
        invariant
            i <= ids@.len(),
            ids == &options.selected_thread_ids,
            unsorted@.len() == i,
            forall|k: int|
                0 <= k < i ==> #[trigger] planned_for_id(
                    unsorted@[k],
                    ids@[k]@,
                    source_threads@,
                    existing_threads@,
                    codex_home@,
                    *options,
                    platform,
                    present_dirs@,
                ),
        decreases ids@.len() - i,
    {
        let id = ids[i].as_str();
        proof {
            assert forall|m: int| 0 <= m < i implies #[trigger] entry_outcome(
                ids@[m]@,
                source_threads@,
                codex_home@,
                *options,
                platform,
                present_dirs@,
            ) is Mapped by {
                assert(planned_for_id(
                    unsorted@[m],
                    ids@[m]@,
                    source_threads@,
                    existing_threads@,
                    codex_home@,
                    *options,
                    platform,
                    present_dirs@,
                ));
            }
        }
        let src_index = find_last_with_id(source_threads, id);
        let si = match src_index {
            None => {
                return Err(PlanError::UnknownThread(ids[i].clone()));
            },
            Some(si) => si,
        };
        let source = &source_threads[si];
        let cwd = normalize(source.record.cwd.as_str());
        let history_only = contains_string(options.history_only_projects.as_slice(), cwd.as_str());
        let mapped = if history_only {
            let root = join_path(codex_home, "migration_history");
            history_only_path(root.as_str(), cwd.as_str())
        } else {
            match map_explicit(cwd.as_str(), options.mappings.as_slice(), &platform) {
                Some(m) => m,
                None => {
                    if contains_string(present_dirs, cwd.as_str()) {
                        cwd.clone()
                    } else {
                        return Err(PlanError::UnmappedProject(cwd));
                    }
                },
            }
        };
        let existing_index = find_last_with_id(existing_threads, id);
        let (action, reason) = match existing_index {
            None => (MergeAction::Import, text("thread UUID is not present")),
            Some(ei) => {
                let target = &existing_threads[ei];
                if str_equal(target.record.sha256.as_str(), source.record.sha256.as_str()) {
                    (MergeAction::SkipIdentical, text("source and target hashes match"))
                } else {
                    compare_contents(source.content.as_slice(), target.content.as_slice())
                }
            },
        };
        let target_path = match existing_index {
            Some(ei) => {
                if action == MergeAction::SkipIdentical || action == MergeAction::KeepTargetLonger {
                    existing_threads[ei].source_path.clone()
                } else {
                    join_path(codex_home, source.record.archive_path.as_str())
                }
            },
            None => join_path(codex_home, source.record.archive_path.as_str()),
        };
        let entry = PlannedThread {
            thread: source.record.duplicate(),
            source_path: source.source_path.clone(),
            mapped_cwd: mapped,
            history_only,
            target_path,
            action,
            reason,
        };
        let ghost before = unsorted@;
        unsorted.push(entry);
        proof {
            assert forall|k: int| 0 <= k < i + 1 implies #[trigger] planned_for_id(
                unsorted@[k],
                ids@[k]@,
                source_threads@,
                existing_threads@,
                codex_home@,
                *options,
                platform,
                present_dirs@,
            ) by {
                if k < i {
                    assert(unsorted@[k] == before[k]);
                }
            }
        }
        i += 1;
    }
    let ghost entries = unsorted@;
    let threads = sort_plan(unsorted);
    let conflicts = count_conflicts(&threads);
    let plan = ImportPlan {
        source_codex_home: catalog.source_codex_home.clone(),
        codex_home: text(codex_home),
        threads,
        conflicts,
    };
    assert(plan.threads@ == sort_planned(entries));
    Ok(plan)
}

proof fn lemma_last_with_id_is(threads: Seq<ScannedThread>, id: Seq<char>)
    ensures
        last_with_id(threads, id) matches Some(j) ==> 0 <= j < threads.len()
            && threads[j].record.id@ == id,
    decreases threads.len(),
{
    if threads.len() > 0 && threads.last().record.id@ != id {
        lemma_last_with_id_is(threads.drop_last(), id);
    }
}

proof fn lemma_insert_planned_multiset(s: Seq<PlannedThread>, x: PlannedThread)
    ensures
        insert_planned(s, x).to_multiset() == s.to_multiset().insert(x),
    decreases s.len(),
{
    broadcast use vstd::seq_lib::to_multiset_build;

    if s.len() == 0 {
        assert(insert_planned(s, x) =~= s.push(x));
    } else if precedes(x, s.last()) {
        lemma_insert_planned_multiset(s.drop_last(), x);
        assert(s.drop_last().push(s.last()) =~= s);
        assert(insert_planned(s, x).to_multiset() =~= s.to_multiset().insert(x));
    }
}

proof fn lemma_sort_planned_multiset(s: Seq<PlannedThread>)
    ensures
        sort_planned(s).to_multiset() == s.to_multiset(),
        sort_planned(s).len() == s.len(),
    decreases s.len(),
{
    broadcast use vstd::seq_lib::to_multiset_build, vstd::seq_lib::to_multiset_len;

    if s.len() > 0 {
        lemma_sort_planned_multiset(s.drop_last());
        lemma_insert_planned_multiset(sort_planned(s.drop_last()), s.last());
        assert(s.drop_last().push(s.last()) =~= s);
    }
    assert(sort_planned(s).to_multiset().len() == s.to_multiset().len());
}

/// The entry carries the selected `id`, the record and rollout path of the
/// last source thread with that id, and the action and reason that the
/// merge rules give that thread against the target's copy (if any).
pub open spec fn drawn_from_source(
    p: PlannedThread,
    sources: Seq<ScannedThread>,
    existing: Seq<ScannedThread>,
    id: Seq<char>,
) -> bool {
    &&& p.thread.id@ == id
    &&& last_with_id(sources, id) matches Some(i)
    &&& p.thread == sources[i].record
    &&& p.source_path@ == sources[i].source_path@
    &&& (p.action, p.reason@) == action_spec(sources[i], existing_for(existing, id))
}

/// A plan invents no thread and follows the merge rules: it holds one entry
/// per selected id, and each entry carries the record and the rollout path
/// of a source thread whose id was selected (the last source copy of that
/// id), with the action that the merge rules give it against the target.
pub proof fn law_plan_threads_come_from_sources(
    plan: ImportPlan,
    catalog: SourceCatalog,
    source_threads: Seq<ScannedThread>,
    existing_threads: Seq<ScannedThread>,
    codex_home: Seq<char>,
    platform: PlatformKind,
    options: ImportOptions,
    present_dirs: Seq<String>,
)
    requires
        is_import_plan(
            plan,
            catalog,
            source_threads,
            existing_threads,
            codex_home,
            platform,
            options,
            present_dirs,
        ),
    ensures
        plan.threads@.len() == options.selected_thread_ids@.len(),
        forall|m: int|
            0 <= m < plan.threads@.len() ==> exists|k: int|
                0 <= k < options.selected_thread_ids@.len() && drawn_from_source(
                    #[trigger] plan.threads@[m],
                    source_threads,
                    existing_threads,
                    options.selected_thread_ids@[k]@,
                ),
{
    let ids = options.selected_thread_ids@;
    let unsorted = choose|unsorted: Seq<PlannedThread>|
        {
            &&& unsorted.len() == ids.len()
            &&& forall|k: int|
                0 <= k < unsorted.len() ==> #[trigger] planned_for_id(
                    unsorted[k],
                    ids[k]@,
                    source_threads,
                    existing_threads,
                    codex_home,
                    options,
                    platform,
                    present_dirs,
                )
            &&& plan.threads@ == sort_planned(unsorted)
        };
    lemma_sort_planned_multiset(unsorted);
    assert forall|m: int| 0 <= m < plan.threads@.len() implies exists|k: int|
        0 <= k < ids.len() && drawn_from_source(
            #[trigger] plan.threads@[m],
            source_threads,
            existing_threads,
            ids[k]@,
        ) by {
        let x = plan.threads@[m];
        assert(plan.threads@.to_multiset().count(x) > 0) by {
            broadcast use vstd::seq_lib::group_to_multiset_ensures;
            assert(plan.threads@.contains(x));
        }
        assert(unsorted.contains(x)) by {
            broadcast use vstd::seq_lib::group_to_multiset_ensures;
        }
        let k = choose|k: int| 0 <= k < unsorted.len() && unsorted[k] == x;
        assert(planned_for_id(
            unsorted[k],
            ids[k]@,
            source_threads,
            existing_threads,
            codex_home,
            options,
            platform,
            present_dirs,
        ));
        lemma_last_with_id_is(source_threads, ids[k]@);
    }
}

/// The thread ids of plan entries, in order.
pub open spec fn planned_ids(s: Seq<PlannedThread>) -> Seq<Seq<char>> {
    s.map_values(|p: PlannedThread| p.thread.id@)
}

/// The ids of the selection, in order.
pub open spec fn selected_views(ids: Seq<String>) -> Seq<Seq<char>> {
    ids.map_values(|x: String| x@)
}

/// No entry comes after one that it precedes.
pub open spec fn planned_sorted(s: Seq<PlannedThread>) -> bool {
    forall|i: int, j: int| 0 <= i < j < s.len() ==> !precedes(#[trigger] s[j], #[trigger] s[i])
}

proof fn lemma_precedes_asymmetric(a: PlannedThread, b: PlannedThread)
    ensures
        precedes(a, b) ==> !precedes(b, a),
{
    lemma_seq_less_total(a.thread.cwd@, b.thread.cwd@);
    lemma_seq_less_irreflexive(a.thread.cwd@);
}

proof fn lemma_not_precedes_transitive(a: PlannedThread, b: PlannedThread, c: PlannedThread)
    requires
        !precedes(c, b),
        !precedes(b, a),
    ensures
        !precedes(c, a),
{
    let (x, y, z) = (a.thread.cwd@, b.thread.cwd@, c.thread.cwd@);
    lemma_seq_less_total(x, y);
    lemma_seq_less_total(y, z);
    lemma_seq_less_total(x, z);
    lemma_seq_less_irreflexive(x);
    if seq_less(x, y) && seq_less(y, z) {
        lemma_seq_less_transitive(x, y, z);
    }
}

proof fn lemma_insert_planned_sorted(s: Seq<PlannedThread>, x: PlannedThread)
    requires
        planned_sorted(s),
    ensures
        planned_sorted(insert_planned(s, x)),
    decreases s.len(),
{
    if s.len() == 0 {
        assert(insert_planned(s, x) =~= seq![x]);
    } else if precedes(x, s.last()) {
        let rest = s.drop_last();
        lemma_insert_planned_sorted(rest, x);
        lemma_insert_planned_multiset(rest, x);
        let inner = insert_planned(rest, x);
        let r = inner.push(s.last());
        assert(insert_planned(s, x) == r);
        assert forall|i: int, j: int| 0 <= i < j < r.len() implies !precedes(
            #[trigger] r[j],
            #[trigger] r[i],
        ) by {
            if j == r.len() - 1 {
                let e = inner[i];
                assert(inner.to_multiset().count(e) > 0) by {
                    broadcast use vstd::seq_lib::group_to_multiset_ensures;
                    assert(inner.contains(e));
                }
                assert(rest.to_multiset().insert(x).count(e) > 0);
                if e == x {
                    lemma_precedes_asymmetric(x, s.last());
                } else {
                    assert(rest.contains(e)) by {
                        broadcast use vstd::seq_lib::group_to_multiset_ensures;
                    }
                    let k = choose|k: int| 0 <= k < rest.len() && rest[k] == e;
                    assert(s[k] == rest[k]);
                    assert(!precedes(s[s.len() - 1], s[k]));
                }
            } else {
                assert(r[i] == inner[i] && r[j] == inner[j]);
            }
        }
    } else {
        let r = s.push(x);
        assert(insert_planned(s, x) == r);
        assert forall|i: int, j: int| 0 <= i < j < r.len() implies !precedes(
            #[trigger] r[j],
            #[trigger] r[i],
        ) by {
            if j == r.len() - 1 {
                if i < s.len() - 1 {
                    assert(!precedes(s[s.len() - 1], s[i]));
                    lemma_not_precedes_transitive(s[i], s[s.len() - 1], x);
                }
            } else {
                assert(r[i] == s[i] && r[j] == s[j]);
            }
        }
    }
}

proof fn lemma_sort_planned_sorted(s: Seq<PlannedThread>)
    ensures
        planned_sorted(sort_planned(s)),
    decreases s.len(),
{
    if s.len() > 0 {
        lemma_sort_planned_sorted(s.drop_last());
        lemma_insert_planned_sorted(sort_planned(s.drop_last()), s.last());
    }
}

proof fn lemma_insert_planned_ids(s: Seq<PlannedThread>, x: PlannedThread)
    ensures
        planned_ids(insert_planned(s, x)).to_multiset() == planned_ids(s).to_multiset().insert(
            x.thread.id@,
        ),
    decreases s.len(),
{
    broadcast use vstd::seq_lib::to_multiset_build;

    if s.len() == 0 {
        assert(planned_ids(insert_planned(s, x)) =~= seq![x.thread.id@]);
        assert(planned_ids(s) =~= Seq::<Seq<char>>::empty());
        assert(seq![x.thread.id@] =~= Seq::<Seq<char>>::empty().push(x.thread.id@));
    } else if precedes(x, s.last()) {
        let rest = s.drop_last();
        lemma_insert_planned_ids(rest, x);
        assert(planned_ids(insert_planned(rest, x).push(s.last())) =~= planned_ids(
            insert_planned(rest, x),
        ).push(s.last().thread.id@));
        assert(planned_ids(s) =~= planned_ids(rest).push(s.last().thread.id@));
        assert(planned_ids(insert_planned(s, x)).to_multiset() =~= planned_ids(s).to_multiset().insert(
            x.thread.id@,
        ));
    } else {
        assert(planned_ids(s.push(x)) =~= planned_ids(s).push(x.thread.id@));
    }
}

proof fn lemma_sort_planned_ids(s: Seq<PlannedThread>)
    ensures
        planned_ids(sort_planned(s)).to_multiset() == planned_ids(s).to_multiset(),
    decreases s.len(),
{
    broadcast use vstd::seq_lib::to_multiset_build;

    if s.len() > 0 {
        lemma_sort_planned_ids(s.drop_last());
        lemma_insert_planned_ids(sort_planned(s.drop_last()), s.last());
        assert(planned_ids(s) =~= planned_ids(s.drop_last()).push(s.last().thread.id@));
    } else {
        assert(sort_planned(s) == s);
    }
}

/// A plan lists its entries by project folder, ascending, and within a
/// folder the most recently updated thread first; and its thread ids are
/// the selected ids, each as often as it was selected.
pub proof fn law_plan_order_and_ids(
    plan: ImportPlan,
    catalog: SourceCatalog,
    source_threads: Seq<ScannedThread>,
    existing_threads: Seq<ScannedThread>,
    codex_home: Seq<char>,
    platform: PlatformKind,
    options: ImportOptions,
    present_dirs: Seq<String>,
)
    requires
        is_import_plan(
            plan,
            catalog,
            source_threads,
            existing_threads,
            codex_home,
            platform,
            options,
            present_dirs,
        ),
    ensures
        forall|i: int, j: int|
            0 <= i < j < plan.threads@.len() ==> {
                let (a, b) = (#[trigger] plan.threads@[i].thread, #[trigger] plan.threads@[j].thread);
                seq_less(a.cwd@, b.cwd@) || (a.cwd@ == b.cwd@ && a.updated_at >= b.updated_at)
            },
        planned_ids(plan.threads@).to_multiset() == selected_views(
            options.selected_thread_ids@,
        ).to_multiset(),
{
    let ids = options.selected_thread_ids@;
    let unsorted = choose|unsorted: Seq<PlannedThread>|
        {
            &&& unsorted.len() == ids.len()
            &&& forall|k: int|
                0 <= k < unsorted.len() ==> #[trigger] planned_for_id(
                    unsorted[k],
                    ids[k]@,
                    source_threads,
                    existing_threads,
                    codex_home,
                    options,
                    platform,
                    present_dirs,
                )
            &&& plan.threads@ == sort_planned(unsorted)
        };
    lemma_sort_planned_sorted(unsorted);
    assert forall|i: int, j: int| 0 <= i < j < plan.threads@.len() implies {
        let (a, b) = (#[trigger] plan.threads@[i].thread, #[trigger] plan.threads@[j].thread);
        seq_less(a.cwd@, b.cwd@) || (a.cwd@ == b.cwd@ && a.updated_at >= b.updated_at)
    } by {
        let (a, b) = (plan.threads@[i], plan.threads@[j]);
        assert(!precedes(b, a));
        lemma_seq_less_total(a.thread.cwd@, b.thread.cwd@);
    }
    lemma_sort_planned_ids(unsorted);
    assert forall|k: int| 0 <= k < unsorted.len() implies #[trigger] unsorted[k].thread.id@ == ids[k]@ by {
        assert(planned_for_id(
            unsorted[k],
            ids[k]@,
            source_threads,
            existing_threads,
            codex_home,
            options,
            platform,
            present_dirs,
        ));
        lemma_last_with_id_is(source_threads, ids[k]@);
    }
    assert(planned_ids(unsorted) =~= selected_views(ids));
}

/// Planning fails exactly when some selected id cannot be planned: a plan
/// exists only when every selected id finds its source thread and a folder,
/// and a plan error names a selected id that does not (one missing from the
/// source, or whose project has no folder on this device).
pub proof fn law_plan_fails_exactly(
    plan: ImportPlan,
    e: PlanError,
    catalog: SourceCatalog,
    source_threads: Seq<ScannedThread>,
    existing_threads: Seq<ScannedThread>,
    codex_home: Seq<char>,
    platform: PlatformKind,
    options: ImportOptions,
    present_dirs: Seq<String>,
)
    ensures
        is_import_plan(
            plan,
            catalog,
            source_threads,
            existing_threads,
            codex_home,
            platform,
            options,
            present_dirs,
        ) ==> forall|k: int|
            0 <= k < options.selected_thread_ids@.len() ==> #[trigger] entry_outcome(
                options.selected_thread_ids@[k]@,
                source_threads,
                codex_home,
                options,
                platform,
                present_dirs,
            ) is Mapped,
        is_plan_error(e, source_threads, codex_home, platform, options, present_dirs) ==> exists|
            k: int,
        |
            0 <= k < options.selected_thread_ids@.len() && !(#[trigger] entry_outcome(
                options.selected_thread_ids@[k]@,
                source_threads,
                codex_home,
                options,
                platform,
                present_dirs,
            ) is Mapped),
{
    if is_import_plan(
        plan,
        catalog,
        source_threads,
        existing_threads,
        codex_home,
        platform,
        options,
        present_dirs,
    ) {
        let ids = options.selected_thread_ids@;
        let unsorted = choose|unsorted: Seq<PlannedThread>|
            {
                &&& unsorted.len() == ids.len()
                &&& forall|k: int|
                    0 <= k < unsorted.len() ==> #[trigger] planned_for_id(
                        unsorted[k],
                        ids[k]@,
                        source_threads,
                        existing_threads,
                        codex_home,
                        options,
                        platform,
                        present_dirs,
                    )
                &&& plan.threads@ == sort_planned(unsorted)
            };
        assert forall|k: int| 0 <= k < ids.len() implies #[trigger] entry_outcome(
            ids[k]@,
            source_threads,
            codex_home,
            options,
            platform,
            present_dirs,
        ) is Mapped by {
            assert(planned_for_id(
                unsorted[k],
                ids[k]@,
                source_threads,
                existing_threads,
                codex_home,
                options,
                platform,
                present_dirs,
            ));
        }
    }
}

} // verus!
