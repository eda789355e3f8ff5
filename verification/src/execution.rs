//! What an import does with each planned thread, and what it reports when
//! it is done.
use crate::keyed::{lookup, put, upsert, well_keyed};
use crate::model::{MergeAction, PlannedThread, ScannedThread};
use crate::rollout::{rewrite_cwd_bytes, rewrite_lines_spec, split_on, RolloutError};
use crate::text::{str_equal, string_push_str};
use vstd::prelude::*;

verus! {

/// What an import does with one planned thread.
#[derive(Debug, Clone)]
pub enum ThreadWork {
    /// The target already holds the thread: its rollout at `target` is made
    /// to name the folder `cwd`, and the thread is registered again.
    Refresh { target: String, cwd: String },
    /// The source rollout, rewritten to name the folder `cwd`, is written to
    /// `target`; `retire` is a rollout of the same thread elsewhere in the
    /// target home, which is backed up and removed first (if it is a file).
    Write { target: String, cwd: String, bytes: Vec<u8>, retire: Option<String> },
}

/// Why a planned thread could not be imported.
#[derive(Debug, Clone)]
pub enum WorkError {
    /// No source thread was read from this path.
    SourceMissing(String),
    /// The source rollout could not be rewritten.
    Rollout(RolloutError),
}

impl WorkError {
    /// The message shown to the user.
    pub fn message(&self, cwd: &str) -> (s: String)
        ensures
            s@ == match self {
                WorkError::SourceMissing(path) => "source rollout disappeared: "@ + path@,
                WorkError::Rollout(e) => crate::rollout::rollout_message(*e, Seq::<char>::empty(), cwd@),
            },
    {
        match self {
            WorkError::SourceMissing(path) => {
                let mut out = String::new();
                string_push_str(&mut out, "source rollout disappeared: ");
                string_push_str(&mut out, path.as_str());
                assert(out@ =~= "source rollout disappeared: "@ + path@);
                out
            },
            WorkError::Rollout(e) => {
                proof {
                    reveal_strlit("");
                }
                e.message("", cwd)
            },
        }
    }
}

/// The rollout paths of the threads by id, ascending; of two threads with
/// one id, the later one's.
pub open spec fn rollouts_by_id(threads: Seq<ScannedThread>) -> Seq<(Seq<char>, Seq<char>)>
    decreases threads.len(),
{
    if threads.len() == 0 {
        seq![]
    } else {
        upsert(
            rollouts_by_id(threads.drop_last()),
            threads.last().record.id@,
            threads.last().source_path@,
        )
    }
}

/// The rollout paths of the threads of a home, by thread id (see
/// [`rollouts_by_id`]).
pub fn existing_rollouts(threads: &[ScannedThread]) -> (m: Vec<(String, String)>)
    ensures
        well_keyed(m.deep_view()),
        m.deep_view() == rollouts_by_id(threads@),
{
    let mut m: Vec<(String, String)> = Vec::new();
    let mut i: usize = 0;
    assert(m.deep_view() =~= seq![]);
    while i < threads.len()
        invariant
            i <= threads@.len(),
            well_keyed(m.deep_view()),
            m.deep_view() == rollouts_by_id(threads@.take(i as int)),
        decreases threads@.len() - i,
    {
        assert(threads@.take(i + 1).drop_last() =~= threads@.take(i as int));
        assert(threads@.take(i + 1).last() == threads@[i as int]);
        put(&mut m, threads[i].record.id.clone(), threads[i].source_path.clone());
        i += 1;
    }
    assert(threads@.take(i as int) =~= threads@);
    m
}

/// Source thread `i` is the last one read from `path`: when two source
/// threads were read from the same path, the later one is imported.
pub open spec fn last_from(threads: Seq<ScannedThread>, path: Seq<char>, i: int) -> bool {
    &&& 0 <= i < threads.len()
    &&& threads[i].source_path@ == path
    &&& forall|k: int| i < k < threads.len() ==> threads[k].source_path@ != path
}

/// The index of the last source thread read from `path`, if any.
fn last_source_index(source_threads: &[ScannedThread], path: &str) -> (r: Option<usize>)
    ensures
        match r {
            Some(i) => last_from(source_threads@, path@, i as int),
            None => forall|k: int|
                0 <= k < source_threads@.len() ==> source_threads@[k].source_path@ != path@,
        },
{
    let mut n: usize = source_threads.len();
    while n > 0
        invariant
            n <= source_threads@.len(),
            forall|k: int| n <= k < source_threads@.len() ==> source_threads@[k].source_path@ != path@,
        decreases n,
    {
        n -= 1;
        if crate::text::str_equal(source_threads[n].source_path.as_str(), path) {
            return Some(n);
        }
    }
    None
}

/// The rollout that a replacing import may retire: the one the target home
/// holds for the thread.
pub open spec fn retire_candidate(
    planned: PlannedThread,
    existing: Seq<(Seq<char>, Seq<char>)>,
) -> Option<Seq<char>> {
    if planned.action == MergeAction::ReplaceWithLonger {
        lookup(existing, planned.thread.id@)
    } else {
        None
    }
}

/// What a replacing import retires, given whether the candidate is at the
/// same location as the new target (`same_location`): the candidate, unless
/// it is.
pub open spec fn retirement(
    planned: PlannedThread,
    existing: Seq<(Seq<char>, Seq<char>)>,
    same_location: bool,
) -> Option<Seq<char>> {
    match retire_candidate(planned, existing) {
        Some(p) => if same_location {
            None
        } else {
            Some(p)
        },
        None => None,
    }
}

/// The rollout that writing a planned thread retires (see [`retirement`]):
/// for a replacing import, the copy the target home holds for the thread,
/// unless it is at the same location as the new target.
pub fn retired_copy(planned: &PlannedThread, existing: &Vec<(String, String)>, same_location: bool) -> (r:
    Option<String>)
    requires
        well_keyed(existing.deep_view()),
    ensures
        crate::json::opt_chars(r) == retirement(*planned, existing.deep_view(), same_location),
{
    if planned.action == MergeAction::ReplaceWithLonger && !same_location {
        match crate::keyed::get(existing, planned.thread.id.as_str()) {
            Some(previous) => Some(previous.clone()),
            None => None,
        }
    } else {
        None
    }
}

/// What an import does with a planned thread: an identical or longer copy
/// in the target is refreshed in place; otherwise the first source rollout
/// read from the planned source path is rewritten to name the mapped folder
/// and written to the target, retiring the target's own copy when a longer
/// one replaces it elsewhere (see [`retired_copy`]; the two locations are
/// compared as paths, see `same_path`: equal texts are always the same
/// location, and whether other texts are depends on the platform).
///
/// `existing` are the rollout paths of the target home by thread id (see
/// [`existing_rollouts`]). Conflicts are refused before any import.
pub fn thread_work(
    planned: &PlannedThread,
    source_threads: &[ScannedThread],
    existing: &Vec<(String, String)>,
) -> (r: Result<ThreadWork, WorkError>)
    requires
        planned.action != MergeAction::Conflict,
        well_keyed(existing.deep_view()),
    ensures
        match r {
            Ok(ThreadWork::Refresh { target, cwd }) => {
                &&& (planned.action == MergeAction::SkipIdentical || planned.action
                    == MergeAction::KeepTargetLonger)
                &&& target@ == planned.target_path@
                &&& cwd@ == planned.mapped_cwd@
            },
            Ok(ThreadWork::Write { target, cwd, bytes, retire }) => {
                &&& (planned.action == MergeAction::Import || planned.action
                    == MergeAction::ReplaceWithLonger)
                &&& target@ == planned.target_path@
                &&& cwd@ == planned.mapped_cwd@
                &&& exists|i: int|
                    last_from(source_threads@, planned.source_path@, i) && (rewrite_lines_spec(
                        split_on(source_threads@[i].content@, 10u8),
                        planned.mapped_cwd@,
                    ) matches Ok((b, _)) && bytes@ == b)
                &&& exists|same: bool|
                    (retire_candidate(*planned, existing.deep_view()) == Some(planned.target_path@)
                        ==> same) && crate::json::opt_chars(retire) == retirement(
                        *planned,
                        existing.deep_view(),
                        same,
                    )
            },
            Err(WorkError::SourceMissing(path)) => {
                &&& (planned.action == MergeAction::Import || planned.action
                    == MergeAction::ReplaceWithLonger)
                &&& path@ == planned.source_path@
                &&& forall|k: int|
                    0 <= k < source_threads@.len() ==> source_threads@[k].source_path@
                        != planned.source_path@
            },
            Err(WorkError::Rollout(e)) => {
                &&& (planned.action == MergeAction::Import || planned.action
                    == MergeAction::ReplaceWithLonger)
                &&& exists|i: int|
                    last_from(source_threads@, planned.source_path@, i) && rewrite_lines_spec(
                        split_on(source_threads@[i].content@, 10u8),
                        planned.mapped_cwd@,
                    ) == Err::<(Seq<u8>, nat), RolloutError>(e)
            },
        },
{
    if planned.action == MergeAction::SkipIdentical || planned.action
        == MergeAction::KeepTargetLonger {
        return Ok(
            ThreadWork::Refresh {
                target: planned.target_path.clone(),
                cwd: planned.mapped_cwd.clone(),
            },
        );
    }
    let w = match last_source_index(source_threads, planned.source_path.as_str()) {
        Some(i) => i,
        None => {
            return Err(WorkError::SourceMissing(planned.source_path.clone()));
        },
    };
    let source = source_threads[w].content.as_slice();
    let bytes = match rewrite_cwd_bytes(source, planned.mapped_cwd.as_str()) {
        Ok((bytes, n)) => {
            assert(rewrite_lines_spec(split_on(source_threads@[w as int].content@, 10u8), planned.mapped_cwd@)
                == Ok::<(Seq<u8>, nat), RolloutError>((bytes@, n as nat)));
            bytes
        },
        Err(e) => {
            assert(rewrite_lines_spec(split_on(source_threads@[w as int].content@, 10u8), planned.mapped_cwd@)
                == Err::<(Seq<u8>, nat), RolloutError>(e));
            return Err(WorkError::Rollout(e));
        },
    };
    let same_location = if planned.action == MergeAction::ReplaceWithLonger {
        match crate::keyed::get(existing, planned.thread.id.as_str()) {
            Some(previous) => crate::path_mapper::same_path(
                previous.as_str(),
                planned.target_path.as_str(),
            ),
            None => false,
        }
    } else {
        false
    };
    let retire = retired_copy(planned, existing, same_location);
    Ok(
        ThreadWork::Write {
            target: planned.target_path.clone(),
            cwd: planned.mapped_cwd.clone(),
            bytes,
            retire,
        },
    )
}

/// The rollout of a thread that the target already holds, rewritten to name
/// the folder `cwd`: `None` when it names it already.
pub fn refreshed_rollout(existing: &[u8], cwd: &str) -> (r: Result<Option<Vec<u8>>, RolloutError>)
    ensures
        match r {
            Ok(Some(bytes)) => rewrite_lines_spec(split_on(existing@, 10u8), cwd@) matches Ok(
                (b, n),
            ) && n > 0 && bytes@ == b,
            Ok(None) => rewrite_lines_spec(split_on(existing@, 10u8), cwd@) matches Ok((_, n))
                && n == 0,
            Err(e) => rewrite_lines_spec(split_on(existing@, 10u8), cwd@) == Err::<
                (Seq<u8>, nat),
                RolloutError,
            >(e),
        },
{
    let (bytes, changed) = rewrite_cwd_bytes(existing, cwd)?;
    if changed > 0 {
        Ok(Some(bytes))
    } else {
        Ok(None)
    }
}

/// The number of planned threads that an import writes.
pub open spec fn written_count(threads: Seq<PlannedThread>) -> nat
    decreases threads.len(),
{
    if threads.len() == 0 {
        0
    } else {
        written_count(threads.drop_last()) + (if threads.last().action == MergeAction::Import
            || threads.last().action == MergeAction::ReplaceWithLonger {
            1nat
        } else {
            0nat
        })
    }
}

/// The number of planned threads that an import refreshes in place.
pub open spec fn refreshed_count(threads: Seq<PlannedThread>) -> nat
    decreases threads.len(),
{
    if threads.len() == 0 {
        0
    } else {
        refreshed_count(threads.drop_last()) + (if threads.last().action
            == MergeAction::SkipIdentical || threads.last().action
            == MergeAction::KeepTargetLonger {
            1nat
        } else {
            0nat
        })
    }
}

/// The summary of a completed import of the planned threads: the written
/// ones count as imported, the refreshed ones as refreshed and as skipped.
pub fn import_summary(transaction_id: &str, threads: &[PlannedThread]) -> (s: crate::operations::ImportSummary)
    ensures
        s.transaction_id@ == transaction_id@,
        s.imported == written_count(threads@),
        s.refreshed == refreshed_count(threads@),
        s.skipped == refreshed_count(threads@),
{
    let mut imported: usize = 0;
    let mut refreshed: usize = 0;
    let mut i: usize = 0;
    while i < threads.len()
        invariant
            i <= threads@.len(),
            imported == written_count(threads@.take(i as int)),
            refreshed == refreshed_count(threads@.take(i as int)),
            imported + refreshed <= i,
        decreases threads@.len() - i,
    {
        assert(threads@.take(i + 1).drop_last() =~= threads@.take(i as int));
        assert(threads@.take(i + 1).last() == threads@[i as int]);
        let action = threads[i].action;
        if action == MergeAction::Import || action == MergeAction::ReplaceWithLonger {
            imported += 1;
        } else if action == MergeAction::SkipIdentical || action == MergeAction::KeepTargetLonger {
            refreshed += 1;
        }
        i += 1;
    }
    assert(threads@.take(i as int) =~= threads@);
    crate::operations::ImportSummary {
        transaction_id: transaction_id.to_owned(),
        imported,
        refreshed,
        skipped: refreshed,
    }
}

/// A plan without conflicts (the only plan that an import carries out) has
/// no thread whose action is a conflict, so every one of its threads can
/// be given to [`thread_work`].
pub proof fn law_accepted_plan_has_no_conflict(threads: Seq<PlannedThread>)
    requires
        crate::merge::conflict_count(threads) == 0,
    ensures
        forall|k: int| 0 <= k < threads.len() ==> (#[trigger] threads[k]).action != MergeAction::Conflict,
    decreases threads.len(),
{
    if threads.len() > 0 {
        law_accepted_plan_has_no_conflict(threads.drop_last());
        assert forall|k: int| 0 <= k < threads.len() implies (#[trigger] threads[k]).action
            != MergeAction::Conflict by {
            if k < threads.len() - 1 {
                assert(threads.drop_last()[k] == threads[k]);
            }
        }
    }
}

} // verus!
