//! The selections that the desktop app keeps while the user picks what to
//! import, export or delete, and the options they amount to.
use crate::keyed::{put, upsert, well_keyed};
use crate::merge::has_string;
use crate::model::{ImportOptions, MergeAction, PlatformKind, SourceProject, SourceSession};
use crate::operations::TransactionSummary;
use crate::path_mapper::{map_explicit, map_explicit_spec, normalize, normalize_spec};
use crate::text::{ascending, has_key, insert_sorted, str_equal, trim};
use vstd::prelude::*;

verus! {

/// How much of a group is selected.
#[derive(Debug, Clone, Copy, PartialEq, Eq, Structural)]
pub enum CheckState {
    Clear,
    Partial,
    All,
}

/// A session as the app lists it.
#[derive(Debug, Clone)]
pub struct UiSession {
    pub source: SourceSession,
    pub selected: bool,
}

/// A project as the app lists it, with where it goes.
#[derive(Debug, Clone)]
pub struct UiProject {
    pub original_cwd: String,
    pub target_path: String,
    pub history_only: bool,
    pub expanded: bool,
    pub sessions: Vec<UiSession>,
}

/// The number of selected sessions.
pub open spec fn count_selected(sessions: Seq<UiSession>) -> nat
    decreases sessions.len(),
{
    if sessions.len() == 0 {
        0
    } else {
        count_selected(sessions.drop_last()) + (if sessions.last().selected {
            1nat
        } else {
            0nat
        })
    }
}

/// None, all (of a non-empty group) or part of the group is selected.
pub open spec fn state_of(selected: nat, total: nat) -> CheckState {
    if selected == 0 {
        CheckState::Clear
    } else if selected == total {
        CheckState::All
    } else {
        CheckState::Partial
    }
}

proof fn lemma_count_bound(sessions: Seq<UiSession>)
    ensures
        count_selected(sessions) <= sessions.len(),
    decreases sessions.len(),
{
    if sessions.len() > 0 {
        lemma_count_bound(sessions.drop_last());
    }
}

fn count_selected_exec(sessions: &Vec<UiSession>) -> (n: usize)
    ensures
        n == count_selected(sessions@),
{
    let mut n: usize = 0;
    let mut i: usize = 0;
    while i < sessions.len()
        invariant
            i <= sessions@.len(),
            n == count_selected(sessions@.take(i as int)),
            n <= i,
        decreases sessions@.len() - i,
    {
        assert(sessions@.take(i + 1).drop_last() =~= sessions@.take(i as int));
        if sessions[i].selected {
            n += 1;
        }
        i += 1;
    }
    assert(sessions@.take(i as int) =~= sessions@);
    n
}

impl UiProject {
    /// How much of the project is selected.
    pub fn state(&self) -> (s: CheckState)
        ensures
            s == state_of(count_selected(self.sessions@), self.sessions@.len()),
    {
        let n = count_selected_exec(&self.sessions);
        if n == 0 {
            CheckState::Clear
        } else if n == self.sessions.len() {
            CheckState::All
        } else {
            CheckState::Partial
        }
    }

    /// Selects or clears every session of the project.
    pub fn set_selected(&mut self, selected: bool)
        ensures
            final(self).sessions@.len() == old(self).sessions@.len(),
            forall|i: int|
                0 <= i < final(self).sessions@.len() ==> (#[trigger] final(self).sessions@[i]).selected
                    == selected && final(self).sessions@[i].source == old(self).sessions@[i].source,
            final(self).original_cwd == old(self).original_cwd,
            final(self).target_path == old(self).target_path,
            final(self).history_only == old(self).history_only,
            final(self).expanded == old(self).expanded,
    {
        let mut i: usize = 0;
        while i < self.sessions.len()
            invariant
                i <= self.sessions@.len(),
                self.sessions@.len() == old(self).sessions@.len(),
                forall|k: int|
                    0 <= k < self.sessions@.len() ==> (#[trigger] self.sessions@[k]).source == old(
                        self,
                    ).sessions@[k].source,
                forall|k: int| 0 <= k < i ==> (#[trigger] self.sessions@[k]).selected == selected,
                self.original_cwd == old(self).original_cwd,
                self.target_path == old(self).target_path,
                self.history_only == old(self).history_only,
                self.expanded == old(self).expanded,
            decreases self.sessions@.len() - i,
        {
            let mut session = self.sessions.remove(i);
            session.selected = selected;
            self.sessions.insert(i, session);
            i += 1;
        }
    }

    /// The number of selected sessions.
    pub fn selected_count(&self) -> (n: usize)
        ensures
            n == count_selected(self.sessions@),
    {
        count_selected_exec(&self.sessions)
    }

    /// The project can be imported as it stands: nothing of it is selected,
    /// or it is kept as history only, or its target is a folder here
    /// (`target_is_dir` tells whether `target_path` is one).
    pub fn is_ready(&self, target_is_dir: bool) -> (r: bool)
        ensures
            r == (count_selected(self.sessions@) == 0 || self.history_only || (
            self.target_path@.len() > 0 && target_is_dir)),
    {
        self.selected_count() == 0 || self.history_only || (!self.target_path.as_str().is_empty()
            && target_is_dir)
    }
}

/// The project as the app first lists it: everything selected, the
/// suggested target (if any) filled in.
pub fn project_to_ui(project: &SourceProject) -> (p: UiProject)
    ensures
        p.original_cwd == project.original_cwd,
        p.target_path@ == match project.suggested_target {
            Some(t) => t@,
            None => Seq::<char>::empty(),
        },
        !p.history_only,
        p.expanded,
        p.sessions@.len() == project.sessions@.len(),
        forall|i: int|
            0 <= i < p.sessions@.len() ==> (#[trigger] p.sessions@[i]).selected && p.sessions@[i].source.thread
                == project.sessions@[i].thread && p.sessions@[i].source.source_path
                == project.sessions@[i].source_path,
{
    let mut sessions: Vec<UiSession> = Vec::new();
    let mut i: usize = 0;
    while i < project.sessions.len()
        invariant
            i <= project.sessions@.len(),
            sessions@.len() == i,
            forall|k: int|
                0 <= k < i ==> (#[trigger] sessions@[k]).selected && sessions@[k].source.thread
                    == project.sessions@[k].thread && sessions@[k].source.source_path
                    == project.sessions@[k].source_path,
        decreases project.sessions@.len() - i,
    {
        let s = &project.sessions[i];
        sessions.push(
            UiSession {
                source: SourceSession {
                    thread: s.thread.duplicate(),
                    source_path: s.source_path.clone(),
                },
                selected: true,
            },
        );
        i += 1;
    }
    UiProject {
        original_cwd: project.original_cwd.clone(),
        target_path: match &project.suggested_target {
            Some(t) => t.clone(),
            None => String::new(),
        },
        history_only: false,
        expanded: true,
        sessions,
    }
}

/// Some selected session of some project has the thread id `id`.
pub open spec fn is_selected_id(projects: Seq<UiProject>, id: Seq<char>) -> bool {
    exists|p: int, s: int|
        0 <= p < projects.len() && 0 <= s < projects[p].sessions@.len() && (
        #[trigger] projects[p].sessions@[s]).selected && projects[p].sessions@[s].source.thread.id@
            == id
}

/// The ids of the selected sessions, ascending, each once.
pub fn selected_ids(projects: &[UiProject]) -> (ids: Vec<String>)
    ensures
        ascending(ids@),
        forall|x: Seq<char>| #[trigger] has_key(ids@, x) <==> is_selected_id(projects@, x),
{
    let mut ids: Vec<String> = Vec::new();
    let mut p: usize = 0;
    while p < projects.len()
        invariant
            p <= projects@.len(),
            ascending(ids@),
            forall|x: Seq<char>| #[trigger] has_key(ids@, x) <==> is_selected_id(projects@.take(p as int), x),
        decreases projects@.len() - p,
    {
        let sessions = &projects[p].sessions;
        let ghost before = projects@.take(p as int);
        let mut s: usize = 0;
        while s < sessions.len()
            invariant
                p < projects@.len(),
                sessions == &projects@[p as int].sessions,
                s <= sessions@.len(),
                ascending(ids@),
                forall|x: Seq<char>| #[trigger] has_key(ids@, x) <==> (is_selected_id(before, x) || exists|
                    t: int,
                | 0 <= t < s && (#[trigger] sessions@[t]).selected && sessions@[t].source.thread.id@ == x),
            decreases sessions@.len() - s,
        {
            if sessions[s].selected {
                insert_sorted(&mut ids, sessions[s].source.thread.id.clone());
            }
            proof {
                assert forall|x: Seq<char>| #[trigger] has_key(ids@, x) <==> (is_selected_id(before, x)
                    || exists|t: int|
                    0 <= t < s + 1 && (#[trigger] sessions@[t]).selected && sessions@[t].source.thread.id@
                        == x) by {
                    if exists|t: int|
                        0 <= t < s + 1 && (#[trigger] sessions@[t]).selected && sessions@[t].source.thread.id@
                            == x {
                        let t = choose|t: int|
                            0 <= t < s + 1 && (#[trigger] sessions@[t]).selected
                                && sessions@[t].source.thread.id@ == x;
                        if t < s {
                            assert(exists|u: int|
                                0 <= u < s && (#[trigger] sessions@[u]).selected
                                    && sessions@[u].source.thread.id@ == x);
                        }
                    }
                }
            }
            s += 1;
        }
        proof {
            let after = projects@.take(p + 1);
            assert forall|x: Seq<char>| #[trigger] has_key(ids@, x) <==> is_selected_id(after, x) by {
                if is_selected_id(after, x) {
                    let (q, t) = choose|q: int, t: int|
                        0 <= q < after.len() && 0 <= t < after[q].sessions@.len() && (
                        #[trigger] after[q].sessions@[t]).selected && after[q].sessions@[t].source.thread.id@
                            == x;
                    if q < p {
                        assert(before[q] == after[q]);
                        assert(is_selected_id(before, x));
                    } else {
                        assert(after[q] == projects@[p as int]);
                        assert(sessions@[t].selected);
                    }
                }
                if is_selected_id(before, x) {
                    let (q, t) = choose|q: int, t: int|
                        0 <= q < before.len() && 0 <= t < before[q].sessions@.len() && (
                        #[trigger] before[q].sessions@[t]).selected && before[q].sessions@[t].source.thread.id@
                            == x;
                    assert(after[q] == before[q]);
                }
                if exists|t: int|
                    0 <= t < s && (#[trigger] sessions@[t]).selected && sessions@[t].source.thread.id@
                        == x {
                    let t = choose|t: int|
                        0 <= t < s && (#[trigger] sessions@[t]).selected && sessions@[t].source.thread.id@
                            == x;
                    assert(after[p as int].sessions@[t] == sessions@[t]);
                }
            }
        }
        p += 1;
    }
    assert(projects@.take(p as int) =~= projects@);
    ids
}

/// The number of sessions of all projects.
pub open spec fn total_sessions(projects: Seq<UiProject>) -> nat
    decreases projects.len(),
{
    if projects.len() == 0 {
        0
    } else {
        total_sessions(projects.drop_last()) + projects.last().sessions@.len()
    }
}

/// The number of selected sessions of all projects.
pub open spec fn total_selected(projects: Seq<UiProject>) -> nat
    decreases projects.len(),
{
    if projects.len() == 0 {
        0
    } else {
        total_selected(projects.drop_last()) + count_selected(projects.last().sessions@)
    }
}

proof fn lemma_totals(projects: Seq<UiProject>)
    ensures
        total_selected(projects) <= total_sessions(projects),
    decreases projects.len(),
{
    if projects.len() > 0 {
        lemma_totals(projects.drop_last());
        lemma_count_bound(projects.last().sessions@);
    }
}

/// How much of all the projects is selected.
pub fn projects_selection_state(projects: &[UiProject]) -> (s: CheckState)
    requires
        total_sessions(projects@) <= usize::MAX,
    ensures
        s == state_of(total_selected(projects@), total_sessions(projects@)),
{
    let mut selected: usize = 0;
    let mut total: usize = 0;
    let mut p: usize = 0;
    while p < projects.len()
        invariant
            p <= projects@.len(),
            total_sessions(projects@) <= usize::MAX,
            selected == total_selected(projects@.take(p as int)),
            total == total_sessions(projects@.take(p as int)),
        decreases projects@.len() - p,
    {
        assert(projects@.take(p + 1).drop_last() =~= projects@.take(p as int));
        proof {
            lemma_totals(projects@.take(p + 1));
            lemma_prefix_total(projects@, p + 1);
        }
        selected += projects[p].selected_count();
        total += projects[p].sessions.len();
        p += 1;
    }
    assert(projects@.take(p as int) =~= projects@);
    if selected == 0 {
        CheckState::Clear
    } else if selected == total && total > 0 {
        CheckState::All
    } else {
        CheckState::Partial
    }
}

proof fn lemma_prefix_total(projects: Seq<UiProject>, n: int)
    requires
        0 <= n <= projects.len(),
    ensures
        total_sessions(projects.take(n)) <= total_sessions(projects),
    decreases projects.len() - n,
{
    if n < projects.len() {
        assert(projects.take(n + 1).drop_last() =~= projects.take(n));
        lemma_prefix_total(projects, n + 1);
    } else {
        assert(projects.take(n) =~= projects);
    }
}

/// Selects or clears every session of every project.
pub fn set_projects_selected(projects: &mut Vec<UiProject>, selected: bool)
    ensures
        final(projects)@.len() == old(projects)@.len(),
        forall|p: int|
            0 <= p < final(projects)@.len() ==> {
                let (a, b) = (#[trigger] final(projects)@[p], old(projects)@[p]);
                &&& a.sessions@.len() == b.sessions@.len()
                &&& forall|i: int|
                    0 <= i < a.sessions@.len() ==> (#[trigger] a.sessions@[i]).selected == selected
                        && a.sessions@[i].source == b.sessions@[i].source
                &&& a.original_cwd == b.original_cwd
                &&& a.target_path == b.target_path
                &&& a.history_only == b.history_only
            },
{
    let mut p: usize = 0;
    while p < projects.len()
        invariant
            p <= projects@.len(),
            projects@.len() == old(projects)@.len(),
            forall|q: int| p <= q < projects@.len() ==> #[trigger] projects@[q] == old(projects)@[q],
            forall|q: int|
                0 <= q < p ==> {
                    let (a, b) = (#[trigger] projects@[q], old(projects)@[q]);
                    &&& a.sessions@.len() == b.sessions@.len()
                    &&& forall|i: int|
                        0 <= i < a.sessions@.len() ==> (#[trigger] a.sessions@[i]).selected
                            == selected && a.sessions@[i].source == b.sessions@[i].source
                    &&& a.original_cwd == b.original_cwd
                    &&& a.target_path == b.target_path
                    &&& a.history_only == b.history_only
                },
        decreases projects@.len() - p,
    {
        let mut project = projects.remove(p);
        project.set_selected(selected);
        projects.insert(p, project);
        p += 1;
    }
}

/// The number of transactions whose id is selected.
pub open spec fn count_chosen(transactions: Seq<TransactionSummary>, selected: Seq<String>) -> nat
    decreases transactions.len(),
{
    if transactions.len() == 0 {
        0
    } else {
        count_chosen(transactions.drop_last(), selected) + (if has_key(
            selected,
            transactions.last().id@,
        ) {
            1nat
        } else {
            0nat
        })
    }
}

/// How much of the listed transactions is selected.
pub fn transaction_selection_state(transactions: &[TransactionSummary], selected: &[String]) -> (s:
    CheckState)
    ensures
        s == state_of(count_chosen(transactions@, selected@), transactions@.len()),
{
    let mut n: usize = 0;
    let mut i: usize = 0;
    while i < transactions.len()
        invariant
            i <= transactions@.len(),
            n == count_chosen(transactions@.take(i as int), selected@),
            n <= i,
        decreases transactions@.len() - i,
    {
        assert(transactions@.take(i + 1).drop_last() =~= transactions@.take(i as int));
        if crate::session_index::contains_id(selected, transactions[i].id.as_str()) {
            n += 1;
        }
        i += 1;
    }
    assert(transactions@.take(i as int) =~= transactions@);
    if n == 0 {
        CheckState::Clear
    } else if n == transactions.len() && transactions.len() > 0 {
        CheckState::All
    } else {
        CheckState::Partial
    }
}

/// The mappings that the projects give: each project with a selected
/// session and a target maps its folder, normalized, to that target; a later
/// project with the same folder wins.
pub open spec fn project_mappings(projects: Seq<UiProject>, history_aware: bool) -> Seq<
    (Seq<char>, Seq<char>),
>
    decreases projects.len(),
{
    if projects.len() == 0 {
        seq![]
    } else {
        let rest = project_mappings(projects.drop_last(), history_aware);
        let p = projects.last();
        let maps = if history_aware {
            !p.history_only && p.target_path@.len() > 0
        } else {
            count_selected(p.sessions@) > 0 && p.target_path@.len() > 0
        };
        if maps {
            upsert(rest, normalize_spec(p.original_cwd@), p.target_path@)
        } else {
            rest
        }
    }
}

/// The folders of the projects kept as history only, normalized.
pub open spec fn is_history_project(projects: Seq<UiProject>, cwd: Seq<char>) -> bool {
    exists|p: int|
        0 <= p < projects.len() && (#[trigger] projects[p]).history_only && normalize_spec(
            projects[p].original_cwd@,
        ) == cwd
}

fn mappings_of(projects: &[UiProject], history_aware: bool) -> (m: Vec<(String, String)>)
    ensures
        well_keyed(m.deep_view()),
        m.deep_view() == project_mappings(projects@, history_aware),
{
    let mut m: Vec<(String, String)> = Vec::new();
    let mut p: usize = 0;
    assert(m.deep_view() =~= seq![]);
    while p < projects.len()
        invariant
            p <= projects@.len(),
            well_keyed(m.deep_view()),
            m.deep_view() == project_mappings(projects@.take(p as int), history_aware),
        decreases projects@.len() - p,
    {
        assert(projects@.take(p + 1).drop_last() =~= projects@.take(p as int));
        assert(projects@.take(p + 1).last() == projects@[p as int]);
        let project = &projects[p];
        let maps = if history_aware {
            !project.history_only && !project.target_path.as_str().is_empty()
        } else {
            project.selected_count() > 0 && !project.target_path.as_str().is_empty()
        };
        if maps {
            put(&mut m, normalize(project.original_cwd.as_str()), project.target_path.clone());
        }
        p += 1;
    }
    assert(projects@.take(p as int) =~= projects@);
    m
}

/// The import options that the selection gives, ignoring history-only
/// choices: the selected ids, and a mapping for each project with a
/// selected session and a target.
pub fn options_from_projects(projects: &[UiProject]) -> (o: ImportOptions)
    ensures
        ascending(o.selected_thread_ids@),
        forall|x: Seq<char>|
            #[trigger] has_key(o.selected_thread_ids@, x) <==> is_selected_id(projects@, x),
        well_keyed(o.mappings.deep_view()),
        o.mappings.deep_view() == project_mappings(projects@, false),
        o.history_only_projects@.len() == 0,
{
    ImportOptions {
        selected_thread_ids: selected_ids(projects),
        mappings: mappings_of(projects, false),
        history_only_projects: Vec::new(),
    }
}

/// The import options that the app's selection gives: the selected ids,
/// the folders of history-only projects, and a mapping for every other
/// project with a target.
pub fn import_options(projects: &[UiProject]) -> (o: ImportOptions)
    ensures
        ascending(o.selected_thread_ids@),
        forall|x: Seq<char>|
            #[trigger] has_key(o.selected_thread_ids@, x) <==> is_selected_id(projects@, x),
        well_keyed(o.mappings.deep_view()),
        o.mappings.deep_view() == project_mappings(projects@, true),
        ascending(o.history_only_projects@),
        forall|x: Seq<char>|
            #[trigger] has_key(o.history_only_projects@, x) <==> is_history_project(projects@, x),
{
    let mut history: Vec<String> = Vec::new();
    let mut p: usize = 0;
    while p < projects.len()
        invariant
            p <= projects@.len(),
            ascending(history@),
            forall|x: Seq<char>|
                #[trigger] has_key(history@, x) <==> is_history_project(projects@.take(p as int), x),
        decreases projects@.len() - p,
    {
        let ghost old_h = history@;
        if projects[p].history_only {
            insert_sorted(&mut history, normalize(projects[p].original_cwd.as_str()));
        }
        proof {
            let before = projects@.take(p as int);
            let after = projects@.take(p + 1);
            let n = normalize_spec(projects@[p as int].original_cwd@);
            assert forall|x: Seq<char>| #[trigger] has_key(history@, x) <==> is_history_project(after, x) by {
                if projects@[p as int].history_only {
                    assert(has_key(history@, x) <==> (has_key(old_h, x) || x == n));
                } else {
                    assert(history@ == old_h);
                }
                if is_history_project(after, x) {
                    let q = choose|q: int|
                        0 <= q < after.len() && (#[trigger] after[q]).history_only && normalize_spec(
                            after[q].original_cwd@,
                        ) == x;
                    if q < p {
                        assert(before[q] == after[q]);
                        assert(is_history_project(before, x));
                    } else {
                        assert(after[q] == projects@[p as int]);
                    }
                }
                if projects@[p as int].history_only && x == n {
                    assert(after[p as int] == projects@[p as int]);
                    assert(is_history_project(after, x));
                }
                if is_history_project(before, x) {
                    let q = choose|q: int|
                        0 <= q < before.len() && (#[trigger] before[q]).history_only && normalize_spec(
                            before[q].original_cwd@,
                        ) == x;
                    assert(after[q] == before[q]);
                }
            }
        }
        p += 1;
    }
    assert(projects@.take(p as int) =~= projects@);
    ImportOptions {
        selected_thread_ids: selected_ids(projects),
        mappings: mappings_of(projects, true),
        history_only_projects: history,
    }
}

/// The text in the language the app shows: Chinese or English.
pub fn tr<'a>(chinese: bool, chinese_text: &'a str, english_text: &'a str) -> (r: &'a str)
    ensures
        r@ == if chinese {
            chinese_text@
        } else {
            english_text@
        },
{
    if chinese {
        chinese_text
    } else {
        english_text
    }
}

/// The label of a merge action, in the app's language.
pub fn action_label(action: &MergeAction, zh: bool) -> (r: &'static str)
    ensures
        r@ == match *action {
            MergeAction::Import => if zh {
                "新增"@
            } else {
                "New"@
            },
            MergeAction::SkipIdentical => if zh {
                "重复，刷新索引"@
            } else {
                "Duplicate, refresh index"@
            },
            MergeAction::ReplaceWithLonger => if zh {
                "更新为较长版本"@
            } else {
                "Use longer version"@
            },
            MergeAction::KeepTargetLonger => if zh {
                "保留并刷新索引"@
            } else {
                "Keep and refresh"@
            },
            MergeAction::Conflict => if zh {
                "冲突"@
            } else {
                "Conflict"@
            },
        },
{
    match action {
        MergeAction::Import => tr(zh, "新增", "New"),
        MergeAction::SkipIdentical => tr(zh, "重复，刷新索引", "Duplicate, refresh index"),
        MergeAction::ReplaceWithLonger => tr(zh, "更新为较长版本", "Use longer version"),
        MergeAction::KeepTargetLonger => tr(zh, "保留并刷新索引", "Keep and refresh"),
        MergeAction::Conflict => tr(zh, "冲突", "Conflict"),
    }
}

/// A path typed into the app: the text trimmed, unless nothing is left.
pub fn optional_path(value: &str) -> (r: Option<String>)
    ensures
        match r {
            Some(p) => trim(value@).len() > 0 && p@ == trim(value@),
            None => trim(value@).len() == 0,
        },
{
    let t = crate::text::trim_str(value);
    if t.len() == 0 {
        None
    } else {
        Some(crate::text::string_of(t.as_slice()))
    }
}

// ---------------------------------------------------------------------------
// Parent folders

/// `s` cut at every `c` (`str::split`): always at least one piece.
pub open spec fn split_chars(s: Seq<char>, c: char) -> Seq<Seq<char>>
    decreases s.len(),
{
    if s.len() == 0 {
        seq![seq![]]
    } else {
        let r = split_chars(s.drop_last(), c);
        if s.last() == c {
            r.push(seq![])
        } else {
            r.update(r.len() - 1, r.last().push(s.last()))
        }
    }
}

fn split_exec(s: &str, c: char) -> (parts: Vec<Vec<char>>)
    ensures
        parts@.map_values(|p: Vec<char>| p@) == split_chars(s@, c),
{
    let v = crate::text::chars_of(s);
    let mut parts: Vec<Vec<char>> = Vec::new();
    parts.push(Vec::new());
    let mut i: usize = 0;
    assert(v@.take(0) =~= seq![]);
    assert(parts@.map_values(|p: Vec<char>| p@) =~= split_chars(v@.take(0), c));
    while i < v.len()
        invariant
            i <= v@.len(),
            v@ == s@,
            parts@.len() > 0,
            parts@.map_values(|p: Vec<char>| p@) == split_chars(v@.take(i as int), c),
        decreases v@.len() - i,
    {
        assert(v@.take(i + 1).drop_last() =~= v@.take(i as int));
        assert(v@.take(i + 1).last() == v@[i as int]);
        let ghost before = parts@.map_values(|p: Vec<char>| p@);
        if v[i] == c {
            parts.push(Vec::new());
            assert(parts@.map_values(|p: Vec<char>| p@) =~= before.push(seq![]));
        } else {
            let last = parts.len() - 1;
            let mut piece = parts.remove(last);
            piece.push(v[i]);
            parts.push(piece);
            assert(parts@.map_values(|p: Vec<char>| p@) =~= before.update(
                before.len() - 1,
                before.last().push(v@[i as int]),
            ));
        }
        i += 1;
    }
    assert(v@.take(i as int) =~= v@);
    parts
}

/// The number of leading pieces that `a` and `b` share.
pub open spec fn shared_len(a: Seq<Seq<char>>, b: Seq<Seq<char>>) -> nat
    decreases a.len(),
{
    if a.len() == 0 || b.len() == 0 || a[0] != b[0] {
        0
    } else {
        1 + shared_len(a.drop_first(), b.drop_first())
    }
}

/// The pieces that `first` shares with every path of `rest` (each cut at
/// `/`).
pub open spec fn common_parts(first: Seq<Seq<char>>, rest: Seq<Seq<char>>) -> Seq<Seq<char>>
    decreases rest.len(),
{
    if rest.len() == 0 {
        first
    } else {
        let p = common_parts(first, rest.drop_last());
        p.take(shared_len(p, split_chars(rest.last(), '/')) as int)
    }
}

/// The pieces joined by `/`.
pub open spec fn join_slash(parts: Seq<Seq<char>>) -> Seq<char>
    decreases parts.len(),
{
    if parts.len() == 0 {
        seq![]
    } else if parts.len() == 1 {
        parts[0]
    } else {
        join_slash(parts.drop_last()).push('/') + parts.last()
    }
}

/// `s` with each `//`, from the left, made `/` (`str::replace`).
pub open spec fn single_slashes(s: Seq<char>) -> Seq<char>
    decreases s.len(),
{
    if s.len() < 2 {
        s
    } else if s[0] == '/' && s[1] == '/' {
        seq!['/'] + single_slashes(s.skip(2))
    } else {
        seq![s[0]] + single_slashes(s.skip(1))
    }
}

/// The deepest folder that contains all the paths (normalized), by whole
/// components: absolute when the first path is.
pub open spec fn common_parent_spec(paths: Seq<Seq<char>>) -> Option<Seq<char>> {
    if paths.len() == 0 {
        None
    } else {
        let normalized = paths.map_values(|p: Seq<char>| normalize_spec(p));
        let first = normalized[0];
        let joined = join_slash(common_parts(split_chars(first, '/'), normalized.skip(1)));
        Some(
            if crate::text::starts_with(first, seq!['/']) {
                single_slashes(seq!['/'] + joined)
            } else {
                joined
            },
        )
    }
}

fn shared_len_exec(a: &Vec<Vec<char>>, b: &Vec<Vec<char>>) -> (n: usize)
    ensures
        n == shared_len(a@.map_values(|p: Vec<char>| p@), b@.map_values(|p: Vec<char>| p@)),
        n <= a@.len(),
{
    let ghost av = a@.map_values(|p: Vec<char>| p@);
    let ghost bv = b@.map_values(|p: Vec<char>| p@);
    let mut n: usize = 0;
    assert(av.skip(0) =~= av);
    assert(bv.skip(0) =~= bv);
    while n < a.len() && n < b.len() && crate::text::chars_equal(a[n].as_slice(), b[n].as_slice())
        invariant
            n <= a@.len(),
            n <= b@.len(),
            av == a@.map_values(|p: Vec<char>| p@),
            bv == b@.map_values(|p: Vec<char>| p@),
            shared_len(av, bv) == n + shared_len(av.skip(n as int), bv.skip(n as int)),
        decreases a@.len() - n,
    {
        assert(av.skip(n as int).drop_first() =~= av.skip(n + 1));
        assert(bv.skip(n as int).drop_first() =~= bv.skip(n + 1));
        n += 1;
    }
    proof {
        if n < a@.len() && n < b@.len() {
            assert(av.skip(n as int)[0] == av[n as int]);
            assert(bv.skip(n as int)[0] == bv[n as int]);
        }
    }
    n
}

fn join_slash_exec(parts: &Vec<Vec<char>>, n: usize) -> (out: Vec<char>)
    requires
        n <= parts@.len(),
    ensures
        out@ == join_slash(parts@.map_values(|p: Vec<char>| p@).take(n as int)),
{
    let ghost pv = parts@.map_values(|p: Vec<char>| p@);
    let mut out: Vec<char> = Vec::new();
    let mut i: usize = 0;
    while i < n
        invariant
            i <= n,
            n <= parts@.len(),
            pv == parts@.map_values(|p: Vec<char>| p@),
            out@ == join_slash(pv.take(i as int)),
        decreases n - i,
    {
        assert(pv.take(i + 1).drop_last() =~= pv.take(i as int));
        if i > 0 {
            out.push('/');
        }
        crate::text::extend_chars(&mut out, parts[i].as_slice());
        assert(out@ =~= join_slash(pv.take(i + 1)));
        i += 1;
    }
    out
}

fn single_slashes_exec(s: &Vec<char>) -> (out: Vec<char>)
    ensures
        out@ == single_slashes(s@),
{
    let mut out: Vec<char> = Vec::new();
    let mut i: usize = 0;
    assert(s@.skip(0) =~= s@);
    while i < s.len()
        invariant
            i <= s@.len(),
            out@ + single_slashes(s@.skip(i as int)) == single_slashes(s@),
        decreases s@.len() - i,
    {
        if i + 1 < s.len() && s[i] == '/' && s[i + 1] == '/' {
            out.push('/');
            assert(s@.skip(i as int).skip(2) =~= s@.skip(i + 2));
            i += 2;
        } else {
            proof {
                if s@.skip(i as int).len() >= 2 {
                    assert(s@.skip(i as int).skip(1) =~= s@.skip(i + 1));
                } else {
                    assert(s@.skip(i as int) =~= seq![s@[i as int]]);
                    assert(s@.skip(i + 1) =~= seq![]);
                }
            }
            out.push(s[i]);
            i += 1;
        }
    }
    assert(s@.skip(i as int) =~= seq![]);
    assert(out@ =~= single_slashes(s@));
    out
}

/// The deepest folder that contains all the paths (see
/// [`common_parent_spec`]).
pub fn common_parent(paths: &[String]) -> (r: Option<String>)
    ensures
        crate::json::opt_chars(r) == common_parent_spec(crate::text::views(paths@)),
{
    if paths.len() == 0 {
        return None;
    }
    let ghost normalized = crate::text::views(paths@).map_values(|p: Seq<char>| normalize_spec(p));
    let first = normalize(paths[0].as_str());
    let mut parts = split_exec(first.as_str(), '/');
    let mut k: usize = 1;
    assert(normalized.skip(1).take(0) =~= seq![]);
    while k < paths.len()
        invariant
            1 <= k <= paths@.len(),
            first@ == normalized[0],
            normalized == crate::text::views(paths@).map_values(|p: Seq<char>| normalize_spec(p)),
            parts@.map_values(|p: Vec<char>| p@) == common_parts(
                split_chars(first@, '/'),
                normalized.skip(1).take(k - 1),
            ),
        decreases paths@.len() - k,
    {
        let other_path = normalize(paths[k].as_str());
        let other = split_exec(other_path.as_str(), '/');
        assert(normalized.skip(1).take(k as int).drop_last() =~= normalized.skip(1).take(k - 1));
        assert(normalized.skip(1).take(k as int).last() == other_path@);
        let n = shared_len_exec(&parts, &other);
        let ghost before = parts@.map_values(|p: Vec<char>| p@);
        parts.truncate(n);
        assert(parts@.map_values(|p: Vec<char>| p@) =~= before.take(n as int));
        k += 1;
    }
    assert(normalized.skip(1).take(k - 1) =~= normalized.skip(1));
    let joined = join_slash_exec(&parts, parts.len());
    assert(parts@.map_values(|p: Vec<char>| p@).take(parts@.len() as int) =~= parts@.map_values(
        |p: Vec<char>| p@,
    ));
    let fv = crate::text::chars_of(first.as_str());
    if fv.len() > 0 && fv[0] == '/' {
        let mut rooted: Vec<char> = Vec::new();
        rooted.push('/');
        crate::text::extend_chars(&mut rooted, joined.as_slice());
        assert(crate::text::starts_with(first@, seq!['/'])) by {
            assert(first@.take(1) =~= seq!['/']);
        }
        let out = single_slashes_exec(&rooted);
        Some(crate::text::string_of(out.as_slice()))
    } else {
        proof {
            if crate::text::starts_with(first@, seq!['/']) {
                assert(first@.take(1)[0] == '/');
            }
        }
        Some(crate::text::string_of(joined.as_slice()))
    }
}

/// Maps every project whose folder lies under `source` (a parent mapping)
/// to the same place under `target`: its target becomes the mapped folder
/// when that exists here, else none, and it is no longer history only.
/// Nothing changes when either side is blank after normalizing.
///
/// `platform` is this device's; `present_dirs` are the folders that exist
/// on it.
pub fn apply_parent_mapping_to(
    projects: &mut Vec<UiProject>,
    source: &str,
    target: &str,
    platform: PlatformKind,
    present_dirs: &[String],
)
    ensures
        final(projects)@.len() == old(projects)@.len(),
        forall|p: int|
            0 <= p < final(projects)@.len() ==> {
                let (a, b) = (#[trigger] final(projects)@[p], old(projects)@[p]);
                let s = normalize_spec(source@);
                let t = normalize_spec(target@);
                let mapped = map_explicit_spec(b.original_cwd@, seq![(s, t)], platform);
                &&& a.original_cwd == b.original_cwd
                &&& a.sessions == b.sessions
                &&& a.expanded == b.expanded
                &&& if s.len() > 0 && t.len() > 0 && mapped is Some {
                    &&& !a.history_only
                    &&& a.target_path@ == (if has_string(present_dirs@, mapped->0) {
                        mapped->0
                    } else {
                        Seq::<char>::empty()
                    })
                } else {
                    a.history_only == b.history_only && a.target_path == b.target_path
                }
            },
{
    let s = normalize(source);
    let t = normalize(target);
    let s_empty = s.as_str().is_empty();
    let t_empty = t.as_str().is_empty();
    let mut mappings: Vec<(String, String)> = Vec::new();
    mappings.push((s, t));
    let ghost pairs = seq![(normalize_spec(source@), normalize_spec(target@))];
    assert(crate::path_mapper::pair_views(mappings@) =~= pairs);
    let mut p: usize = 0;
    while p < projects.len()
        invariant
            p <= projects@.len(),
            projects@.len() == old(projects)@.len(),
            crate::path_mapper::pair_views(mappings@) == pairs,
            pairs == seq![(normalize_spec(source@), normalize_spec(target@))],
            s_empty == (normalize_spec(source@).len() == 0),
            t_empty == (normalize_spec(target@).len() == 0),
            forall|q: int| p <= q < projects@.len() ==> #[trigger] projects@[q] == old(projects)@[q],
            forall|q: int|
                0 <= q < p ==> {
                    let (a, b) = (#[trigger] projects@[q], old(projects)@[q]);
                    let s = normalize_spec(source@);
                    let t = normalize_spec(target@);
                    let mapped = map_explicit_spec(b.original_cwd@, seq![(s, t)], platform);
                    &&& a.original_cwd == b.original_cwd
                    &&& a.sessions == b.sessions
                    &&& a.expanded == b.expanded
                    &&& if s.len() > 0 && t.len() > 0 && mapped is Some {
                        &&& !a.history_only
                        &&& a.target_path@ == (if has_string(present_dirs@, mapped->0) {
                            mapped->0
                        } else {
                            Seq::<char>::empty()
                        })
                    } else {
                        a.history_only == b.history_only && a.target_path == b.target_path
                    }
                },
        decreases projects@.len() - p,
    {
        let ghost sv = normalize_spec(source@);
        let ghost tv = normalize_spec(target@);
        let ghost b = old(projects)@[p as int];
        let ghost spec_mapped = map_explicit_spec(b.original_cwd@, seq![(sv, tv)], platform);
        if !s_empty && !t_empty {
            let mapped = map_explicit(projects[p].original_cwd.as_str(), mappings.as_slice(), &platform);
            assert(spec_mapped == map_explicit_spec(projects@[p as int].original_cwd@, pairs, platform));
            match mapped {
                Some(m) => {
                    let ghost before = projects@;
                    let mut project = projects.remove(p);
                    project.target_path = if crate::merge::contains_string(present_dirs, m.as_str()) {
                        m
                    } else {
                        String::new()
                    };
                    project.history_only = false;
                    let ghost changed = project;
                    projects.insert(p, project);
                    assert(projects@ =~= before.update(p as int, changed));
                    assert(spec_mapped == Some(m@));
                },
                None => {
                    assert(spec_mapped is None);
                },
            }
        }
        assert({
            let a = projects@[p as int];
            &&& a.original_cwd == b.original_cwd
            &&& a.sessions == b.sessions
            &&& a.expanded == b.expanded
            &&& if sv.len() > 0 && tv.len() > 0 && spec_mapped is Some {
                &&& !a.history_only
                &&& a.target_path@ == (if has_string(present_dirs@, spec_mapped->0) {
                    spec_mapped->0
                } else {
                    Seq::<char>::empty()
                })
            } else {
                a.history_only == b.history_only && a.target_path == b.target_path
            }
        });
        p += 1;
    }
}

/// The first 24 bytes of an id, for display (the whole id when it is
/// shorter, or when byte 24 falls inside a character).
pub fn short_id(value: &str) -> (r: &str)
    requires
        vstd::utf8::encode_utf8(value@).len() <= usize::MAX,
    ensures
        if vstd::utf8::encode_utf8(value@).len() > 24 && vstd::utf8::is_char_boundary(
            vstd::utf8::encode_utf8(value@),
            24,
        ) {
            vstd::utf8::encode_utf8(r@) == vstd::utf8::encode_utf8(value@).subrange(0, 24)
        } else {
            r@ == value@
        },
{
    if value.len() > 24 && value.is_char_boundary(24) {
        let (head, _) = value.split_at(24);
        head
    } else {
        value
    }
}


/// A project whose sessions are all selected is wholly selected, one with
/// none selected is clear, and any other is partly selected.
pub proof fn law_selection_state(sessions: Seq<UiSession>)
    ensures
        sessions.len() > 0 && (forall|i: int| 0 <= i < sessions.len() ==> (#[trigger] sessions[i]).selected)
            ==> state_of(count_selected(sessions), sessions.len()) == CheckState::All,
        (forall|i: int| 0 <= i < sessions.len() ==> !(#[trigger] sessions[i]).selected) ==> state_of(
            count_selected(sessions),
            sessions.len(),
        ) == CheckState::Clear,
        (exists|i: int| 0 <= i < sessions.len() && (#[trigger] sessions[i]).selected) && (exists|
            j: int,
        | 0 <= j < sessions.len() && !(#[trigger] sessions[j]).selected) ==> state_of(
            count_selected(sessions),
            sessions.len(),
        ) == CheckState::Partial,
{
    lemma_count_all(sessions);
}

proof fn lemma_count_all(sessions: Seq<UiSession>)
    ensures
        (forall|i: int| 0 <= i < sessions.len() ==> (#[trigger] sessions[i]).selected) ==> count_selected(
            sessions,
        ) == sessions.len(),
        (forall|i: int| 0 <= i < sessions.len() ==> !(#[trigger] sessions[i]).selected) ==> count_selected(
            sessions,
        ) == 0,
        (exists|i: int| 0 <= i < sessions.len() && (#[trigger] sessions[i]).selected) ==> count_selected(
            sessions,
        ) > 0,
        (exists|i: int| 0 <= i < sessions.len() && !(#[trigger] sessions[i]).selected) ==> count_selected(
            sessions,
        ) < sessions.len(),
    decreases sessions.len(),
{
    if sessions.len() > 0 {
        let rest = sessions.drop_last();
        lemma_count_all(rest);
        lemma_count_bound(rest);
        assert forall|i: int| 0 <= i < rest.len() implies rest[i] == sessions[i] by {}
        if exists|i: int| 0 <= i < sessions.len() && (#[trigger] sessions[i]).selected {
            let i = choose|i: int| 0 <= i < sessions.len() && (#[trigger] sessions[i]).selected;
            if i < sessions.len() - 1 {
                assert(rest[i].selected);
            }
        }
        if exists|i: int| 0 <= i < sessions.len() && !(#[trigger] sessions[i]).selected {
            let i = choose|i: int| 0 <= i < sessions.len() && !(#[trigger] sessions[i]).selected;
            if i < sessions.len() - 1 {
                assert(!rest[i].selected);
            }
        }
        if forall|i: int| 0 <= i < sessions.len() ==> (#[trigger] sessions[i]).selected {
            assert forall|i: int| 0 <= i < rest.len() implies (#[trigger] rest[i]).selected by {
                assert(sessions[i].selected);
            }
        }
        if forall|i: int| 0 <= i < sessions.len() ==> !(#[trigger] sessions[i]).selected {
            assert forall|i: int| 0 <= i < rest.len() implies !(#[trigger] rest[i]).selected by {
                assert(!sessions[i].selected);
            }
        }
    }
}

} // verus!
