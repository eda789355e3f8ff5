//! The health check of a Codex home, and the check that an import left every
//! imported thread in place.
use crate::discovery::Environment;
use crate::model::{DiagnosticReport, ScannedThread};
use crate::path_mapper::same_path;
use crate::session_index::{is_missing_list, missing_ids};
use crate::text::{
    contains_seq, has_key, joined, lemma_views_push, push_joined, str_contains, str_equal,
    string_push_str, views,
};
use vstd::prelude::*;

verus! {

/// The issue of a Codex home without its folder.
pub open spec fn no_home_issue() -> Seq<char> {
    "CODEX_HOME does not exist"@
}

/// The issue of a Codex home without a state database.
pub open spec fn no_database_issue() -> Seq<char> {
    "state database was not found"@
}

/// The issue of a failed integrity check that returned `result`.
pub open spec fn integrity_issue(result: Seq<char>) -> Seq<char> {
    "SQLite integrity check failed: "@ + result
}

/// The issue of a thread that the database does not point at its rollout.
pub open spec fn stale_issue(id: Seq<char>) -> Seq<char> {
    "thread "@ + id + " rollout path is missing or stale"@
}

/// The issue of a thread that the session index lacks.
pub open spec fn unindexed_issue(id: Seq<char>) -> Seq<char> {
    "thread "@ + id + " is missing from session_index.jsonl"@
}

/// Whether each thread's database path is stale, given whether it is the
/// same path as where the thread was found (`same`): a missing path is
/// stale, and so is one that is not the same path.
pub open spec fn stale_flags(indexed: Seq<Option<String>>, same: Seq<bool>, n: nat) -> Seq<bool> {
    Seq::new(n, |k: int| indexed[k] is None || !same[k])
}

/// `same` is the comparison of a thread's database path with where the
/// thread was found: a path with the same text is always the same path
/// (whether another text is depends on the platform, see `same_path`).
pub open spec fn same_when_equal(same: bool, indexed: Option<String>, thread: ScannedThread) -> bool {
    match indexed {
        Some(p) => p@ == thread.source_path@ ==> same,
        None => true,
    }
}

/// The report of a Codex home: the environment's fields, the numbers of
/// rollouts, and the issues in the order they are reported.
pub open spec fn is_report(
    report: DiagnosticReport,
    environment: Environment,
    codex_home_exists: bool,
    threads: Seq<ScannedThread>,
    database_threads: usize,
    integrity: Option<String>,
    stale: Seq<bool>,
    index_ids: Seq<String>,
) -> bool {
    &&& report.codex_home == environment.codex_home
    &&& report.sqlite_home == environment.sqlite_home
    &&& report.codex_executable == environment.codex_executable
    &&& report.codex_version == environment.codex_version
    &&& report.platform == environment.platform
    &&& report.wsl == environment.wsl
    &&& report.state_db == environment.state_db
    &&& report.schema_version == environment.schema_version
    &&& report.active_rollouts == count_archived(threads, false)
    &&& report.archived_rollouts == count_archived(threads, true)
    &&& report.database_threads == database_threads
    &&& report.integrity == integrity
    &&& views(report.issues@) == diagnose_issues(
        environment,
        codex_home_exists,
        threads,
        integrity,
        stale,
        index_ids,
    )
}

/// The stale-path issues of the threads, in scan order, given the verdict
/// on each thread's database path.
pub open spec fn stale_issues(threads: Seq<ScannedThread>, stale: Seq<bool>) -> Seq<Seq<char>>
    decreases threads.len(),
{
    if threads.len() == 0 {
        seq![]
    } else {
        let rest = stale_issues(threads.drop_last(), stale);
        let k = threads.len() - 1;
        if stale[k] {
            rest.push(stale_issue(threads[k].record.id@))
        } else {
            rest
        }
    }
}

/// The missing-index issues of the threads, in scan order.
pub open spec fn unindexed_issues(threads: Seq<ScannedThread>, index_ids: Seq<String>) -> Seq<Seq<char>>
    decreases threads.len(),
{
    if threads.len() == 0 {
        seq![]
    } else {
        let rest = unindexed_issues(threads.drop_last(), index_ids);
        if has_key(index_ids, threads.last().record.id@) {
            rest
        } else {
            rest.push(unindexed_issue(threads.last().record.id@))
        }
    }
}

/// The number of threads that are archived (or, for `false`, active).
pub open spec fn count_archived(threads: Seq<ScannedThread>, archived: bool) -> nat
    decreases threads.len(),
{
    if threads.len() == 0 {
        0
    } else {
        count_archived(threads.drop_last(), archived) + (if threads.last().record.archived
            == archived {
            1nat
        } else {
            0nat
        })
    }
}

/// The issues of a Codex home, in the order they are reported.
pub open spec fn diagnose_issues(
    environment: Environment,
    codex_home_exists: bool,
    threads: Seq<ScannedThread>,
    integrity: Option<String>,
    stale: Seq<bool>,
    index_ids: Seq<String>,
) -> Seq<Seq<char>> {
    let home = if codex_home_exists {
        seq![]
    } else {
        seq![no_home_issue()]
    };
    let database = if environment.state_db is Some {
        seq![]
    } else {
        seq![no_database_issue()]
    };
    let check = match integrity {
        Some(v) => if v@ != "ok"@ {
            seq![integrity_issue(v@)]
        } else {
            seq![]
        },
        None => seq![],
    };
    let paths = if environment.state_db is Some {
        stale_issues(threads, stale)
    } else {
        seq![]
    };
    home + database + check + paths + unindexed_issues(threads, index_ids)
}

fn push_issue(issues: &mut Vec<String>, issue: String)
    ensures
        views(final(issues)@) == views(old(issues)@).push(issue@),
{
    proof {
        lemma_views_push(issues@, issue);
    }
    issues.push(issue);
}

fn issue_text2(a: &str, b: &str) -> (s: String)
    ensures
        s@ == a@ + b@,
{
    let mut s = String::new();
    string_push_str(&mut s, a);
    string_push_str(&mut s, b);
    s
}

fn issue_text(a: &str, b: &str, c: &str) -> (s: String)
    ensures
        s@ == a@ + b@ + c@,
{
    let mut s = String::new();
    string_push_str(&mut s, a);
    string_push_str(&mut s, b);
    string_push_str(&mut s, c);
    s
}

/// The health report of a Codex home, given what was read from it: whether
/// its folder exists, its threads, the number of threads and the integrity
/// result of its state database (when there is one), the database's
/// rollout path for each thread and whether it is the same path as where
/// the thread was found (`same_paths`), and the ids in its session index.
pub fn diagnose_report(
    environment: &Environment,
    codex_home_exists: bool,
    threads: &[ScannedThread],
    database_threads: usize,
    integrity: Option<String>,
    indexed_paths: &[Option<String>],
    same_paths: &[bool],
    index_ids: &[String],
) -> (report: DiagnosticReport)
    requires
        environment.state_db is Some ==> indexed_paths@.len() == threads@.len()
            && same_paths@.len() == threads@.len(),
    ensures
        is_report(
            report,
            *environment,
            codex_home_exists,
            threads@,
            database_threads,
            integrity,
            stale_flags(indexed_paths@, same_paths@, threads@.len()),
            index_ids@,
        ),
{
    let mut issues: Vec<String> = Vec::new();
    if !codex_home_exists {
        push_issue(&mut issues, "CODEX_HOME does not exist".to_owned());
    }
    if environment.state_db.is_none() {
        push_issue(&mut issues, "state database was not found".to_owned());
    }
    match &integrity {
        Some(v) => {
            if !str_equal(v.as_str(), "ok") {
                push_issue(&mut issues, issue_text2("SQLite integrity check failed: ", v.as_str()));
            }
        },
        None => {},
    }
    let ghost head = views(issues@);
    proof {
        let home: Seq<Seq<char>> = if codex_home_exists {
            seq![]
        } else {
            seq![no_home_issue()]
        };
        let database: Seq<Seq<char>> = if environment.state_db is Some {
            seq![]
        } else {
            seq![no_database_issue()]
        };
        let check: Seq<Seq<char>> = match &integrity {
            Some(v) => if v@ != "ok"@ {
                seq![integrity_issue(v@)]
            } else {
                seq![]
            },
            None => seq![],
        };
        assert(head =~= home + database + check);
    }
    let mut active: usize = 0;
    let mut archived: usize = 0;
    let ghost verdicts = stale_flags(indexed_paths@, same_paths@, threads@.len());
    let mut k: usize = 0;
    while k < threads.len()
        invariant
            k <= threads@.len(),
            environment.state_db is Some ==> indexed_paths@.len() == threads@.len()
                && same_paths@.len() == threads@.len(),
            verdicts == stale_flags(indexed_paths@, same_paths@, threads@.len()),
            views(issues@) == head + (if environment.state_db is Some {
                stale_issues(threads@.take(k as int), verdicts)
            } else {
                seq![]
            }),
            active == count_archived(threads@.take(k as int), false),
            archived == count_archived(threads@.take(k as int), true),
            active + archived == k,
        decreases threads@.len() - k,
    {
        let thread = &threads[k];
        assert(threads@.take(k + 1).drop_last() =~= threads@.take(k as int));
        if thread.record.archived {
            archived += 1;
        } else {
            active += 1;
        }
        if environment.state_db.is_some() {
            let stale = match &indexed_paths[k] {
                Some(_) => !same_paths[k],
                None => true,
            };
            if stale {
                push_issue(
                    &mut issues,
                    issue_text("thread ", thread.record.id.as_str(), " rollout path is missing or stale"),
                );
            }
        }
        proof {
            if environment.state_db is Some {
                assert(stale_issues(threads@.take(k + 1), verdicts) == {
                    let rest = stale_issues(threads@.take(k as int), verdicts);
                    if verdicts[k as int] {
                        rest.push(stale_issue(threads@[k as int].record.id@))
                    } else {
                        rest
                    }
                });
            }
            assert(views(issues@) =~= head + (if environment.state_db is Some {
                stale_issues(threads@.take(k + 1), verdicts)
            } else {
                seq![]
            }));
        }
        k += 1;
    }
    assert(threads@.take(k as int) =~= threads@);
    let ghost middle = views(issues@);
    let mut k: usize = 0;
    while k < threads.len()
        invariant
            k <= threads@.len(),
            views(issues@) == middle + unindexed_issues(threads@.take(k as int), index_ids@),
        decreases threads@.len() - k,
    {
        let thread = &threads[k];
        assert(threads@.take(k + 1).drop_last() =~= threads@.take(k as int));
        assert(threads@.take(k + 1).last() == threads@[k as int]);
        if !crate::session_index::contains_id(index_ids, thread.record.id.as_str()) {
            push_issue(
                &mut issues,
                issue_text("thread ", thread.record.id.as_str(), " is missing from session_index.jsonl"),
            );
        }
        assert(views(issues@) =~= middle + unindexed_issues(threads@.take(k + 1), index_ids@));
        k += 1;
    }
    assert(threads@.take(k as int) =~= threads@);
    assert(views(issues@) =~= diagnose_issues(
        *environment,
        codex_home_exists,
        threads@,
        integrity,
        verdicts,
        index_ids@,
    ));
    DiagnosticReport {
        codex_home: environment.codex_home.clone(),
        sqlite_home: environment.sqlite_home.clone(),
        codex_executable: crate::model::copy_opt_string(&environment.codex_executable),
        codex_version: crate::model::copy_opt_string(&environment.codex_version),
        platform: environment.platform,
        wsl: environment.wsl,
        state_db: crate::model::copy_opt_string(&environment.state_db),
        schema_version: environment.schema_version,
        active_rollouts: active,
        archived_rollouts: archived,
        database_threads,
        integrity,
        issues,
    }
}

/// The health report of a Codex home (see [`diagnose_report`]), each
/// database path compared with where its thread was found as a path (see
/// `same_path`): a path with the same text is never stale, a missing one
/// always is, and whether another text is depends on the platform.
pub fn diagnose(
    environment: &Environment,
    codex_home_exists: bool,
    threads: &[ScannedThread],
    database_threads: usize,
    integrity: Option<String>,
    indexed_paths: &[Option<String>],
    index_ids: &[String],
) -> (report: DiagnosticReport)
    requires
        environment.state_db is Some ==> indexed_paths@.len() == threads@.len(),
    ensures
        exists|same: Seq<bool>|
            {
                &&& same.len() == threads@.len()
                &&& environment.state_db is Some ==> forall|k: int|
                    0 <= k < threads@.len() ==> same_when_equal(
                        #[trigger] same[k],
                        indexed_paths@[k],
                        threads@[k],
                    )
                &&& is_report(
                    report,
                    *environment,
                    codex_home_exists,
                    threads@,
                    database_threads,
                    integrity,
                    stale_flags(indexed_paths@, same, threads@.len()),
                    index_ids@,
                )
            },
{
    let mut same: Vec<bool> = Vec::new();
    let mut k: usize = 0;
    while k < threads.len()
        invariant
            k <= threads@.len(),
            same@.len() == k,
            environment.state_db is Some ==> indexed_paths@.len() == threads@.len(),
            environment.state_db is Some ==> forall|j: int|
                0 <= j < k ==> same_when_equal(#[trigger] same@[j], indexed_paths@[j], threads@[j]),
        decreases threads@.len() - k,
    {
        let verdict = if environment.state_db.is_some() {
            match &indexed_paths[k] {
                Some(p) => same_path(p.as_str(), threads[k].source_path.as_str()),
                None => false,
            }
        } else {
            false
        };
        same.push(verdict);
        k += 1;
    }
    diagnose_report(
        environment,
        codex_home_exists,
        threads,
        database_threads,
        integrity,
        indexed_paths,
        same.as_slice(),
        index_ids,
    )
}

/// Why an import was not confirmed.
#[derive(Debug, Clone, PartialEq, Eq)]
pub enum ExpectedThreadsError {
    /// The rollouts of these threads are missing, listed ascending.
    Missing(Vec<String>),
    /// The health check reported these issues about imported threads.
    Invalid(Vec<String>),
}

impl ExpectedThreadsError {
    /// The message shown to the user.
    pub fn message(&self) -> (s: String)
        ensures
            s@ == match self {
                ExpectedThreadsError::Missing(ids) => "imported rollout files are missing: "@ + joined(
                    ids@,
                    ", "@,
                ),
                ExpectedThreadsError::Invalid(issues) => "import validation failed: "@ + joined(
                    issues@,
                    "; "@,
                ),
            },
    {
        let mut out = String::new();
        match self {
            ExpectedThreadsError::Missing(ids) => {
                string_push_str(&mut out, "imported rollout files are missing: ");
                push_joined(&mut out, ids.as_slice(), ", ");
            },
            ExpectedThreadsError::Invalid(issues) => {
                string_push_str(&mut out, "import validation failed: ");
                push_joined(&mut out, issues.as_slice(), "; ");
            },
        }
        out
    }
}

/// The issue names one of the expected threads.
pub open spec fn names_expected(issue: Seq<char>, expected: Seq<String>) -> bool {
    exists|k: int| 0 <= k < expected.len() && contains_seq(issue, #[trigger] expected[k]@)
}

/// The issues that name one of the expected threads, in their order.
pub open spec fn relevant_issues(issues: Seq<String>, expected: Seq<String>) -> Seq<Seq<char>>
    decreases issues.len(),
{
    if issues.len() == 0 {
        seq![]
    } else {
        let rest = relevant_issues(issues.drop_last(), expected);
        if names_expected(issues.last()@, expected) {
            rest.push(issues.last()@)
        } else {
            rest
        }
    }
}

fn names_any(issue: &str, expected: &[String]) -> (r: bool)
    ensures
        r == names_expected(issue@, expected@),
{
    let mut k: usize = 0;
    while k < expected.len()
        invariant
            k <= expected@.len(),
            forall|m: int| 0 <= m < k ==> !contains_seq(issue@, #[trigger] expected@[m]@),
        decreases expected@.len() - k,
    {
        if str_contains(issue, expected[k].as_str()) {
            return true;
        }
        k += 1;
    }
    false
}

/// Checks that the rollout of every expected thread was found again.
pub fn expected_rollouts_present(expected: &[String], actual_ids: &[String]) -> (r: Result<
    (),
    ExpectedThreadsError,
>)
    ensures
        r is Ok <==> forall|k: int| 0 <= k < expected@.len() ==> has_key(actual_ids@, #[trigger] expected@[k]@),
        r matches Err(ExpectedThreadsError::Missing(ids)) ==> ids@.len() > 0 && is_missing_list(ids@, expected@, actual_ids@),
        !(r matches Err(ExpectedThreadsError::Invalid(_))),
{
    let missing = missing_ids(expected, actual_ids);
    if missing.len() > 0 {
        proof {
            assert(crate::text::has_key(missing@, missing@[0]@));
        }
        return Err(ExpectedThreadsError::Missing(missing));
    }
    proof {
        assert forall|k: int| 0 <= k < expected@.len() implies has_key(actual_ids@, #[trigger] expected@[k]@) by {
            assert(has_key(expected@, expected@[k]@));
            if !has_key(actual_ids@, expected@[k]@) {
                assert(has_key(missing@, expected@[k]@));
            }
        }
    }
    Ok(())
}

/// Confirms an import: the rollout of every expected thread was found
/// again, and the health check reports no issue that names one of them.
///
/// `actual_ids` are the threads found in the home after the import, and
/// `issues` what its health check reported.
pub fn verify_expected_threads(expected: &[String], actual_ids: &[String], issues: &[String]) -> (r:
    Result<(), ExpectedThreadsError>)
    ensures
        match r {
            Ok(()) => (forall|k: int|
                0 <= k < expected@.len() ==> has_key(actual_ids@, #[trigger] expected@[k]@))
                && relevant_issues(issues@, expected@).len() == 0,
            Err(ExpectedThreadsError::Missing(ids)) => ids@.len() > 0 && is_missing_list(
                ids@,
                expected@,
                actual_ids@,
            ),
            Err(ExpectedThreadsError::Invalid(found)) => (forall|k: int|
                0 <= k < expected@.len() ==> has_key(actual_ids@, #[trigger] expected@[k]@))
                && found@.len() > 0 && views(found@) == relevant_issues(issues@, expected@),
        },
{
    expected_rollouts_present(expected, actual_ids)?;
    let mut relevant: Vec<String> = Vec::new();
    let mut i: usize = 0;
    while i < issues.len()
        invariant
            i <= issues@.len(),
            views(relevant@) == relevant_issues(issues@.take(i as int), expected@),
        decreases issues@.len() - i,
    {
        assert(issues@.take(i + 1).drop_last() =~= issues@.take(i as int));
        assert(issues@.take(i + 1).last() == issues@[i as int]);
        if names_any(issues[i].as_str(), expected) {
            push_issue(&mut relevant, issues[i].clone());
        }
        i += 1;
    }
    assert(issues@.take(i as int) =~= issues@);
    if relevant.len() > 0 {
        return Err(ExpectedThreadsError::Invalid(relevant));
    }
    Ok(())
}

proof fn lemma_counts_add_up(threads: Seq<ScannedThread>)
    ensures
        count_archived(threads, false) + count_archived(threads, true) == threads.len(),
    decreases threads.len(),
{
    if threads.len() > 0 {
        lemma_counts_add_up(threads.drop_last());
    }
}

proof fn lemma_stale_listed(threads: Seq<ScannedThread>, stale: Seq<bool>, k: int)
    requires
        0 <= k < threads.len(),
        stale[k],
    ensures
        stale_issues(threads, stale).contains(stale_issue(threads[k].record.id@)),
    decreases threads.len(),
{
    let last = threads.len() - 1;
    let rest = stale_issues(threads.drop_last(), stale);
    if k == last {
        assert(stale_issues(threads, stale).last() == stale_issue(threads[k].record.id@));
    } else {
        lemma_stale_listed(threads.drop_last(), stale, k);
        assert(threads.drop_last()[k] == threads[k]);
        let w = choose|w: int| 0 <= w < rest.len() && rest[w] == stale_issue(threads[k].record.id@);
        if stale[last] {
            assert(stale_issues(threads, stale)[w] == rest[w]);
        }
    }
}

/// An issue about a thread begins with `thread `.
pub open spec fn about_thread(issue: Seq<char>) -> bool {
    issue.len() > 0 && issue[0] == 't'
}

proof fn lemma_stale_about_threads(threads: Seq<ScannedThread>, stale: Seq<bool>)
    ensures
        forall|i: int|
            0 <= i < stale_issues(threads, stale).len() ==> about_thread(
                #[trigger] stale_issues(threads, stale)[i],
            ),
    decreases threads.len(),
{
    reveal_strlit("thread ");
    if threads.len() > 0 {
        lemma_stale_about_threads(threads.drop_last(), stale);
        let rest = stale_issues(threads.drop_last(), stale);
        assert forall|i: int|
            0 <= i < stale_issues(threads, stale).len() implies about_thread(
            #[trigger] stale_issues(threads, stale)[i],
        ) by {
            if i < rest.len() {
                assert(stale_issues(threads, stale)[i] == rest[i]);
            } else {
                let id = threads[threads.len() - 1].record.id@;
                assert(stale_issue(id)[0] == ("thread "@)[0]);
            }
        }
    }
}

proof fn lemma_unindexed_about_threads(threads: Seq<ScannedThread>, index_ids: Seq<String>)
    ensures
        forall|i: int|
            0 <= i < unindexed_issues(threads, index_ids).len() ==> about_thread(
                #[trigger] unindexed_issues(threads, index_ids)[i],
            ),
    decreases threads.len(),
{
    reveal_strlit("thread ");
    if threads.len() > 0 {
        lemma_unindexed_about_threads(threads.drop_last(), index_ids);
        let rest = unindexed_issues(threads.drop_last(), index_ids);
        assert forall|i: int|
            0 <= i < unindexed_issues(threads, index_ids).len() implies about_thread(
            #[trigger] unindexed_issues(threads, index_ids)[i],
        ) by {
            if i < rest.len() {
                assert(unindexed_issues(threads, index_ids)[i] == rest[i]);
            } else {
                let id = threads.last().record.id@;
                assert(unindexed_issue(id)[0] == ("thread "@)[0]);
            }
        }
    }
}

/// A health report counts every rollout as active or archived; it says the
/// state database was not found exactly when there is none; and with a
/// database, it reports each thread whose database path is stale.
pub proof fn law_report_counts_and_stale_paths(
    report: DiagnosticReport,
    environment: Environment,
    codex_home_exists: bool,
    threads: Seq<ScannedThread>,
    database_threads: usize,
    integrity: Option<String>,
    stale: Seq<bool>,
    index_ids: Seq<String>,
)
    requires
        is_report(
            report,
            environment,
            codex_home_exists,
            threads,
            database_threads,
            integrity,
            stale,
            index_ids,
        ),
    ensures
        report.active_rollouts + report.archived_rollouts == threads.len(),
        environment.state_db is None <==> views(report.issues@).contains(no_database_issue()),
        environment.state_db is Some ==> forall|k: int|
            0 <= k < threads.len() && stale[k] ==> views(report.issues@).contains(
                stale_issue(#[trigger] threads[k].record.id@),
            ),
{
    lemma_counts_add_up(threads);
    reveal_strlit("state database was not found");
    reveal_strlit("CODEX_HOME does not exist");
    reveal_strlit("SQLite integrity check failed: ");
    let issues = views(report.issues@);
    let home: Seq<Seq<char>> = if codex_home_exists {
        seq![]
    } else {
        seq![no_home_issue()]
    };
    let database: Seq<Seq<char>> = if environment.state_db is Some {
        seq![]
    } else {
        seq![no_database_issue()]
    };
    let check: Seq<Seq<char>> = match integrity {
        Some(v) => if v@ != "ok"@ {
            seq![integrity_issue(v@)]
        } else {
            seq![]
        },
        None => seq![],
    };
    let paths = if environment.state_db is Some {
        stale_issues(threads, stale)
    } else {
        seq![]
    };
    let tail = unindexed_issues(threads, index_ids);
    assert(issues == home + database + check + paths + tail);
    let front = home + database + check;
    if environment.state_db is None {
        assert(issues[home.len() as int] == no_database_issue());
    } else {
        lemma_stale_about_threads(threads, stale);
        lemma_unindexed_about_threads(threads, index_ids);
        assert(!issues.contains(no_database_issue())) by {
            if issues.contains(no_database_issue()) {
                let w = choose|w: int| 0 <= w < issues.len() && issues[w] == no_database_issue();
                if w < home.len() {
                    assert(issues[w] == no_home_issue());
                    assert(no_home_issue()[0] != no_database_issue()[0]);
                } else if w < front.len() {
                    let v = integrity->0;
                    assert(issues[w] == integrity_issue(v@));
                    assert(integrity_issue(v@)[0] == ("SQLite integrity check failed: "@)[0]);
                    assert(integrity_issue(v@)[0] != no_database_issue()[0]);
                } else if w < front.len() + paths.len() {
                    assert(issues[w] == paths[w - front.len()]);
                    assert(about_thread(paths[w - front.len()]));
                } else {
                    assert(issues[w] == tail[w - front.len() - paths.len()]);
                    assert(about_thread(tail[w - front.len() - paths.len()]));
                }
            }
        }
        assert forall|k: int| 0 <= k < threads.len() && stale[k] implies issues.contains(
            stale_issue(#[trigger] threads[k].record.id@),
        ) by {
            lemma_stale_listed(threads, stale, k);
            let w = choose|w: int| 0 <= w < paths.len() && paths[w] == stale_issue(threads[k].record.id@);
            assert(issues[front.len() + w] == paths[w]);
        }
    }
}

} // verus!
