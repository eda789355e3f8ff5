//! The command line: its commands, and the import options that its
//! arguments select.
use crate::keyed::{put, upsert, well_keyed};
use crate::model::{ImportOptions, SourceCatalog};
use crate::operations::{catalog_has_thread, is_catalog_of};
use crate::path_mapper::{mapping_pair, normalize, normalize_spec, parse_mapping, PathMappingError};
use crate::text::{ascending, has_key, insert_sorted};
use vstd::prelude::*;

verus! {

/// A parsed command line.
#[derive(Debug, Clone)]
pub struct Cli {
    pub command: Command,
}

/// The commands, with their arguments (paths as given).
#[derive(Debug, Clone)]
pub enum Command {
    /// Check the health of a Codex home.
    Doctor { codex_home: Option<String> },
    /// Back up a whole Codex home into a parent folder.
    Export { source: String, output_parent: String },
    /// List the threads of a source home by project.
    Scan { source: String, codex_home: Option<String> },
    /// Import threads of a source home.
    Import {
        source: String,
        codex_home: Option<String>,
        dry_run: bool,
        threads: Vec<String>,
        excluded_threads: Vec<String>,
        mappings: Vec<String>,
        history_only: Vec<String>,
    },
    /// Import a home's own threads again, to repair their folders.
    Rebind { codex_home: Option<String>, threads: Vec<String>, mappings: Vec<String>, dry_run: bool },
    /// Write HTML transcripts of threads.
    ExportHtml { codex_home: Option<String>, threads: Vec<String>, output: Option<String> },
    /// Check a Codex home and run `codex doctor`.
    Verify { codex_home: Option<String> },
    /// Undo an import.
    Rollback { transaction_id: String, codex_home: Option<String> },
}

/// The mappings that the arguments give, by old path ascending, a later
/// argument for the same old path winning; `None` when one is malformed.
pub open spec fn mapping_fold(values: Seq<String>) -> Option<Seq<(Seq<char>, Seq<char>)>>
    decreases values.len(),
{
    if values.len() == 0 {
        Some(seq![])
    } else {
        match mapping_fold(values.drop_last()) {
            None => None,
            Some(acc) => match mapping_pair(values.last()@) {
                None => None,
                Some(pair) => Some(upsert(acc, pair.0, pair.1)),
            },
        }
    }
}

/// The mappings that the arguments give (see [`mapping_fold`]), or the
/// refusal of the first malformed one.
pub fn parse_mappings(values: &[String]) -> (r: Result<Vec<(String, String)>, PathMappingError>)
    ensures
        match r {
            Ok(m) => well_keyed(m.deep_view()) && mapping_fold(values@) == Some(m.deep_view()),
            Err(e) => exists|k: int|
                0 <= k < values@.len() && mapping_pair(values@[k]@) is None && mapping_fold(
                    values@.take(k),
                ) is Some && match e {
                    PathMappingError::MissingSeparator(v) => v@ == values@[k]@,
                    PathMappingError::EmptySide(v) => v@ == values@[k]@,
                },
        },
{
    let mut m: Vec<(String, String)> = Vec::new();
    let mut k: usize = 0;
    assert(m.deep_view() =~= seq![]);
    assert(values@.take(0) =~= seq![]);
    while k < values.len()
        invariant
            k <= values@.len(),
            well_keyed(m.deep_view()),
            mapping_fold(values@.take(k as int)) == Some(m.deep_view()),
        decreases values@.len() - k,
    {
        assert(values@.take(k + 1).drop_last() =~= values@.take(k as int));
        assert(values@.take(k + 1).last() == values@[k as int]);
        match parse_mapping(values[k].as_str()) {
            Ok(mapping) => {
                put(&mut m, mapping.source, mapping.target);
            },
            Err(e) => {
                return Err(e);
            },
        }
        k += 1;
    }
    assert(values@.take(k as int) =~= values@);
    Ok(m)
}

/// The thread is selected: among the named threads (all the catalog's when
/// none is named) and not excluded.
pub open spec fn is_selected(
    catalog: SourceCatalog,
    threads: Seq<String>,
    excluded: Seq<String>,
    id: Seq<char>,
) -> bool {
    (if threads.len() == 0 {
        catalog_has_thread(catalog, id)
    } else {
        has_key(threads, id)
    }) && !has_key(excluded, id)
}

/// The threads of the catalog, ascending, each once.
fn all_ids(catalog: &SourceCatalog) -> (ids: Vec<String>)
    ensures
        ascending(ids@),
        forall|x: Seq<char>| #[trigger] has_key(ids@, x) <==> catalog_has_thread(*catalog, x),
{
    let mut ids: Vec<String> = Vec::new();
    let mut p: usize = 0;
    while p < catalog.projects.len()
        invariant
            p <= catalog.projects@.len(),
            ascending(ids@),
            forall|x: Seq<char>|
                #[trigger] has_key(ids@, x) <==> exists|q: int, s: int|
                    0 <= q < p && 0 <= s < catalog.projects@[q].sessions@.len() && (
                    #[trigger] catalog.projects@[q].sessions@[s]).thread.id@ == x,
        decreases catalog.projects@.len() - p,
    {
        let sessions = &catalog.projects[p].sessions;
        let mut s: usize = 0;
        while s < sessions.len()
            invariant
                p < catalog.projects@.len(),
                sessions == &catalog.projects@[p as int].sessions,
                s <= sessions@.len(),
                ascending(ids@),
                forall|x: Seq<char>|
                    #[trigger] has_key(ids@, x) <==> (exists|q: int, t: int|
                        0 <= q < p && 0 <= t < catalog.projects@[q].sessions@.len() && (
                        #[trigger] catalog.projects@[q].sessions@[t]).thread.id@ == x) || (exists|
                        t: int,
                    | 0 <= t < s && (#[trigger] sessions@[t]).thread.id@ == x),
            decreases sessions@.len() - s,
        {
            let ghost before = ids@;
            insert_sorted(&mut ids, sessions[s].thread.id.clone());
            proof {
                assert forall|x: Seq<char>| #[trigger] has_key(ids@, x) <==> (exists|q: int, t: int|
                    0 <= q < p && 0 <= t < catalog.projects@[q].sessions@.len() && (
                    #[trigger] catalog.projects@[q].sessions@[t]).thread.id@ == x) || (exists|
                    t: int,
                | 0 <= t < s + 1 && (#[trigger] sessions@[t]).thread.id@ == x) by {
                    if x == sessions@[s as int].thread.id@ {
                        assert(sessions@[s as int].thread.id@ == x);
                    }
                    if exists|t: int| 0 <= t < s + 1 && (#[trigger] sessions@[t]).thread.id@ == x {
                        let t = choose|t: int| 0 <= t < s + 1 && (#[trigger] sessions@[t]).thread.id@ == x;
                        if t < s {
                            assert(exists|u: int| 0 <= u < s && (#[trigger] sessions@[u]).thread.id@ == x);
                        }
                    }
                }
            }
            s += 1;
        }
        proof {
            assert forall|x: Seq<char>| #[trigger] has_key(ids@, x) <==> exists|q: int, t: int|
                0 <= q < p + 1 && 0 <= t < catalog.projects@[q].sessions@.len() && (
                #[trigger] catalog.projects@[q].sessions@[t]).thread.id@ == x by {
                if exists|q: int, t: int|
                    0 <= q < p + 1 && 0 <= t < catalog.projects@[q].sessions@.len() && (
                    #[trigger] catalog.projects@[q].sessions@[t]).thread.id@ == x {
                    let (q, t) = choose|q: int, t: int|
                        0 <= q < p + 1 && 0 <= t < catalog.projects@[q].sessions@.len() && (
                        #[trigger] catalog.projects@[q].sessions@[t]).thread.id@ == x;
                    if q == p {
                        assert(sessions@[t] == catalog.projects@[q].sessions@[t]);
                    }
                }
            }
        }
        p += 1;
    }
    ids
}

/// The import options that the arguments of `import` select: the named
/// threads (all the catalog's when none is named) without the excluded
/// ones; the mappings (see [`parse_mappings`]); the history-only projects,
/// normalized. Ids and projects come ascending, each once.
pub fn build_options(
    catalog: &SourceCatalog,
    threads: &[String],
    excluded_threads: &[String],
    mappings: &[String],
    history_only: &[String],
) -> (r: Result<ImportOptions, PathMappingError>)
    ensures
        match r {
            Ok(options) => {
                &&& ascending(options.selected_thread_ids@)
                &&& forall|x: Seq<char>|
                    #[trigger] has_key(options.selected_thread_ids@, x) <==> is_selected(
                        *catalog,
                        threads@,
                        excluded_threads@,
                        x,
                    )
                &&& well_keyed(options.mappings.deep_view())
                &&& mapping_fold(mappings@) == Some(options.mappings.deep_view())
                &&& ascending(options.history_only_projects@)
                &&& forall|x: Seq<char>|
                    #[trigger] has_key(options.history_only_projects@, x) <==> exists|k: int|
                        0 <= k < history_only@.len() && normalize_spec(
                            (#[trigger] history_only@[k])@,
                        ) == x
            },
            Err(e) => exists|k: int|
                0 <= k < mappings@.len() && mapping_pair(mappings@[k]@) is None && mapping_fold(
                    mappings@.take(k),
                ) is Some && match e {
                    PathMappingError::MissingSeparator(v) => v@ == mappings@[k]@,
                    PathMappingError::EmptySide(v) => v@ == mappings@[k]@,
                },
        },
{
    let base = if threads.len() == 0 {
        all_ids(catalog)
    } else {
        let mut named: Vec<String> = Vec::new();
        let mut k: usize = 0;
        while k < threads.len()
            invariant
                k <= threads@.len(),
                ascending(named@),
                forall|x: Seq<char>| #[trigger] has_key(named@, x) <==> has_key(threads@.take(k as int), x),
            decreases threads@.len() - k,
        {
            let ghost before = named@;
            insert_sorted(&mut named, threads[k].clone());
            proof {
                assert forall|x: Seq<char>| #[trigger] has_key(named@, x) <==> has_key(
                    threads@.take(k + 1),
                    x,
                ) by {
                    let t1 = threads@.take(k + 1);
                    let t0 = threads@.take(k as int);
                    if has_key(t1, x) {
                        let w = choose|i: int| 0 <= i < t1.len() && #[trigger] t1[i]@ == x;
                        if w < k {
                            assert(t0[w]@ == x);
                        }
                    }
                    if has_key(t0, x) {
                        let w = choose|i: int| 0 <= i < t0.len() && #[trigger] t0[i]@ == x;
                        assert(t1[w]@ == x);
                    }
                    if x == threads@[k as int]@ {
                        assert(t1[k as int]@ == x);
                    }
                }
            }
            k += 1;
        }
        assert(threads@.take(k as int) =~= threads@);
        named
    };
    let mut selected: Vec<String> = Vec::new();
    let mut i: usize = 0;
    while i < base.len()
        invariant
            i <= base@.len(),
            ascending(base@),
            ascending(selected@),
            forall|m: int| 0 <= m < selected@.len() ==> exists|j: int|
                0 <= j < i && (#[trigger] selected@[m])@ == base@[j]@,
            forall|x: Seq<char>| #[trigger] has_key(selected@, x) <==> (has_key(base@.take(i as int), x)
                && !has_key(excluded_threads@, x)),
        decreases base@.len() - i,
    {
        let ghost before = selected@;
        let excluded = crate::session_index::contains_id(excluded_threads, base[i].as_str());
        if !excluded {
            selected.push(base[i].clone());
            proof {
                assert forall|a: int, b: int| 0 <= a < b < selected@.len() implies crate::text::seq_less(
                    #[trigger] selected@[a]@,
                    #[trigger] selected@[b]@,
                ) by {
                    if b == selected@.len() - 1 {
                        let j = choose|j: int| 0 <= j < i && before[a]@ == base@[j]@;
                        assert(crate::text::seq_less(base@[j]@, base@[i as int]@));
                    }
                }
            }
        }
        proof {
            assert forall|m: int| 0 <= m < selected@.len() implies exists|j: int|
                0 <= j < i + 1 && (#[trigger] selected@[m])@ == base@[j]@ by {
                if m < before.len() {
                    let j = choose|j: int| 0 <= j < i && before[m]@ == base@[j]@;
                    assert(selected@[m] == before[m]);
                } else {
                    assert(selected@[m]@ == base@[i as int]@);
                }
            }
            let b1 = base@.take(i + 1);
            let b0 = base@.take(i as int);
            let y = base@[i as int]@;
            assert forall|x: Seq<char>| #[trigger] has_key(b1, x) <==> (has_key(b0, x) || x == y) by {
                if has_key(b1, x) {
                    let w = choose|j: int| 0 <= j < b1.len() && #[trigger] b1[j]@ == x;
                    if w < i {
                        assert(b0[w]@ == x);
                    }
                }
                if has_key(b0, x) {
                    let w = choose|j: int| 0 <= j < b0.len() && #[trigger] b0[j]@ == x;
                    assert(b1[w]@ == x);
                }
                if x == y {
                    assert(b1[i as int]@ == x);
                }
            }
            assert forall|x: Seq<char>| #[trigger] has_key(selected@, x) <==> (has_key(before, x) || (
            !excluded && x == y)) by {
                if !excluded {
                    assert(selected@ == before.push(base@[i as int]));
                    if has_key(selected@, x) {
                        let w = choose|j: int| 0 <= j < selected@.len() && #[trigger] selected@[j]@ == x;
                        if w < before.len() {
                            assert(before[w]@ == x);
                        }
                    }
                    if has_key(before, x) {
                        let w = choose|j: int| 0 <= j < before.len() && #[trigger] before[j]@ == x;
                        assert(selected@[w]@ == x);
                    }
                    if x == y {
                        assert(selected@[before.len() as int]@ == x);
                    }
                } else {
                    assert(selected@ == before);
                }
            }
            assert forall|x: Seq<char>| #[trigger] has_key(selected@, x) <==> (has_key(b1, x)
                && !has_key(excluded_threads@, x)) by {
                assert(has_key(b1, x) <==> (has_key(b0, x) || x == y));
                assert(has_key(selected@, x) <==> (has_key(before, x) || (!excluded && x == y)));
            }
        }
        i += 1;
    }
    assert(base@.take(i as int) =~= base@);
    let pairs = parse_mappings(mappings)?;
    let mut history: Vec<String> = Vec::new();
    let mut k: usize = 0;
    while k < history_only.len()
        invariant
            k <= history_only@.len(),
            ascending(history@),
            forall|x: Seq<char>| #[trigger] has_key(history@, x) <==> exists|j: int|
                0 <= j < k && normalize_spec((#[trigger] history_only@[j])@) == x,
        decreases history_only@.len() - k,
    {
        let n = normalize(history_only[k].as_str());
        insert_sorted(&mut history, n);
        proof {
            assert forall|x: Seq<char>| #[trigger] has_key(history@, x) <==> exists|j: int|
                0 <= j < k + 1 && normalize_spec((#[trigger] history_only@[j])@) == x by {
                if exists|j: int| 0 <= j < k + 1 && normalize_spec((#[trigger] history_only@[j])@) == x {
                    let j = choose|j: int| 0 <= j < k + 1 && normalize_spec((#[trigger] history_only@[j])@) == x;
                    if j < k {
                        assert(exists|u: int| 0 <= u < k && normalize_spec((#[trigger] history_only@[u])@) == x);
                    }
                }
            }
        }
        k += 1;
    }
    proof {
        assert forall|x: Seq<char>| #[trigger] has_key(selected@, x) <==> is_selected(
            *catalog,
            threads@,
            excluded_threads@,
            x,
        ) by {
            if threads@.len() > 0 {
                assert(has_key(base@, x) == has_key(threads@, x));
            }
        }
    }
    Ok(ImportOptions { selected_thread_ids: selected, mappings: pairs, history_only_projects: history })
}

} // verus!
