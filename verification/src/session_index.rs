//! The session index (`session_index.jsonl`): one JSON object per line, keyed
//! by thread id, from which Codex names the threads in its sidebar.
use crate::json::{
    json_compact, json_compact_at, simple_key, json_kind, json_kind_at, json_set, json_set_at, json_string,
    json_string_literal, json_text, json_text_at, JsonKind,
};
use crate::keyed::{
    get, law_lookup_after_remove, law_lookup_after_upsert, lookup, put, remove_key, take, upsert,
    well_keyed,
};
use crate::model::PlannedThread;
use crate::path_mapper::{join_path, join_spec};
use crate::rollout::bytes_view;
use crate::scanner::{reader_lines, reader_lines_exec};
use crate::text::{
    ascending, has_key, insert_sorted, is_blank, joined, push_joined, str_equal, string_push_str,
    trim, utf8_text,
};
use vstd::utf8::{decode_utf8, valid_utf8};
use vstd::prelude::*;

verus! {

/// Where the session index of a Codex home is.
pub fn path(home: &str) -> (p: String)
    ensures
        p@ == join_spec(home@, "session_index.jsonl"@),
{
    join_path(home, "session_index.jsonl")
}

/// What is wrong with a session index.
#[derive(Debug, Clone, PartialEq, Eq)]
pub enum IndexError {
    /// These threads have no entry, listed ascending.
    Missing(Vec<String>),
}

impl IndexError {
    /// The message shown to the user.
    pub fn message(&self) -> (s: String)
        ensures
            s@ == match self {
                IndexError::Missing(ids) => "threads are missing from session_index.jsonl: "@ + joined(
                    ids@,
                    ", "@,
                ),
            },
    {
        let mut out = String::new();
        match self {
            IndexError::Missing(ids) => {
                string_push_str(&mut out, "threads are missing from session_index.jsonl: ");
                push_joined(&mut out, ids.as_slice(), ", ");
            },
        }
        out
    }
}

/// The ids of `wanted` that `present` lacks, ascending and each once.
pub open spec fn is_missing_list(missing: Seq<String>, wanted: Seq<String>, present: Seq<String>) -> bool {
    &&& ascending(missing)
    &&& forall|x: Seq<char>|
        #[trigger] has_key(missing, x) <==> (has_key(wanted, x) && !has_key(present, x))
}

/// Whether `s` is one of `list`.
pub fn contains_id(list: &[String], s: &str) -> (r: bool)
    ensures
        r == has_key(list@, s@),
{
    let mut i: usize = 0;
    while i < list.len()
        invariant
            i <= list@.len(),
            forall|k: int| 0 <= k < i ==> list@[k]@ != s@,
        decreases list@.len() - i,
    {
        if str_equal(list[i].as_str(), s) {
            assert(list@[i as int]@ == s@);
            return true;
        }
        i += 1;
    }
    false
}

/// The ids of `wanted` that `present` lacks, ascending and each once.
pub fn missing_ids(wanted: &[String], present: &[String]) -> (missing: Vec<String>)
    ensures
        is_missing_list(missing@, wanted@, present@),
{
    let mut missing: Vec<String> = Vec::new();
    let mut i: usize = 0;
    while i < wanted.len()
        invariant
            i <= wanted@.len(),
            ascending(missing@),
            forall|x: Seq<char>|
                #[trigger] has_key(missing@, x) <==> (has_key(wanted@.take(i as int), x)
                    && !has_key(present@, x)),
        decreases wanted@.len() - i,
    {
        let ghost before = missing@;
        let ghost seen = wanted@.take(i as int);
        let ghost next = wanted@.take(i + 1);
        proof {
            assert forall|x: Seq<char>| #[trigger] has_key(next, x) <==> (has_key(seen, x) || x
                == wanted@[i as int]@) by {
                if has_key(next, x) {
                    let w = choose|k: int| 0 <= k < next.len() && #[trigger] next[k]@ == x;
                    if w < i {
                        assert(seen[w]@ == x);
                    }
                }
                if has_key(seen, x) {
                    let w = choose|k: int| 0 <= k < seen.len() && #[trigger] seen[k]@ == x;
                    assert(next[w]@ == x);
                }
                if x == wanted@[i as int]@ {
                    assert(next[i as int]@ == x);
                }
            }
        }
        if !contains_id(present, wanted[i].as_str()) {
            insert_sorted(&mut missing, wanted[i].clone());
        }
        i += 1;
    }
    assert(wanted@.take(i as int) =~= wanted@);
    missing
}

/// Checks that the session index holds an entry for every expected thread.
///
/// `indexed` are the ids that the index holds.
pub fn verify_contains(indexed: &[String], expected: &[String]) -> (r: Result<(), IndexError>)
    ensures
        r is Ok <==> forall|k: int| 0 <= k < expected@.len() ==> has_key(indexed@, #[trigger] expected@[k]@),
        r matches Err(IndexError::Missing(ids)) ==> ids@.len() > 0 && is_missing_list(ids@, expected@, indexed@),
{
    let missing = missing_ids(expected, indexed);
    if missing.len() > 0 {
        proof {
            assert(has_key(missing@, missing@[0]@));
        }
        return Err(IndexError::Missing(missing));
    }
    proof {
        assert forall|k: int| 0 <= k < expected@.len() implies has_key(indexed@, #[trigger] expected@[k]@) by {
            assert(has_key(expected@, expected@[k]@));
            if !has_key(indexed@, expected@[k]@) {
                assert(has_key(missing@, expected@[k]@));
            }
        }
    }
    Ok(())
}

// ---------------------------------------------------------------------------
// Reading and rewriting the index

/// Why the index could not be read.
#[derive(Debug, Clone, PartialEq, Eq)]
pub enum IndexReadError {
    /// The index is not UTF-8 text.
    NotText,
    /// The line with this number (from 1) is not JSON.
    InvalidLine(usize),
}

impl IndexReadError {
    /// The message shown to the user.
    pub fn message(&self) -> (s: String)
        ensures
            s@ == match self {
                IndexReadError::NotText => "session_index.jsonl is not UTF-8 text"@,
                IndexReadError::InvalidLine(n) => "parse line "@ + crate::sqlite_adapter::decimal(
                    *n as nat,
                ) + " in session_index.jsonl"@,
            },
    {
        match self {
            IndexReadError::NotText => "session_index.jsonl is not UTF-8 text".to_owned(),
            IndexReadError::InvalidLine(n) => {
                let mut out: Vec<char> = Vec::new();
                crate::text::extend_str(&mut out, "parse line ");
                crate::sqlite_adapter::push_decimal(&mut out, *n);
                crate::text::extend_str(&mut out, " in session_index.jsonl");
                assert(out@ =~= "parse line "@ + crate::sqlite_adapter::decimal(*n as nat)
                    + " in session_index.jsonl"@);
                crate::text::string_of(out.as_slice())
            },
        }
    }
}

/// A line with nothing but white space.
pub open spec fn blank_line(line: Seq<u8>) -> bool {
    valid_utf8(line) && trim(decode_utf8(line)).len() == 0
}

/// The entries of the index lines, or the number of the first line that is
/// not JSON: blank lines are skipped, a record without a string `id` is
/// ignored, and a later record with an id replaces an earlier one. Each
/// record is kept as its compact JSON text.
pub open spec fn index_lines(lines: Seq<Seq<u8>>) -> Result<Seq<(Seq<char>, Seq<u8>)>, nat>
    decreases lines.len(),
{
    if lines.len() == 0 {
        Ok(seq![])
    } else {
        match index_lines(lines.drop_last()) {
            Err(n) => Err(n),
            Ok(entries) => {
                let line = lines.last();
                if blank_line(line) {
                    Ok(entries)
                } else {
                    match json_compact_at(line, ""@) {
                        None => Err(lines.len()),
                        Some(None) => Ok(entries),
                        Some(Some(record)) => match json_text_at(line, "/id"@) {
                            Some(Some(id)) => Ok(upsert(entries, id, record)),
                            _ => Ok(entries),
                        },
                    }
                }
            },
        }
    }
}

/// The entries of an index file's content (see [`index_lines`]).
pub open spec fn index_spec(content: Seq<u8>) -> Result<Seq<(Seq<char>, Seq<u8>)>, IndexReadError> {
    if !valid_utf8(content) {
        Err(IndexReadError::NotText)
    } else {
        match index_lines(reader_lines(content)) {
            Ok(entries) => Ok(entries),
            Err(n) => Err(IndexReadError::InvalidLine(n as usize)),
        }
    }
}

proof fn lemma_bytes_deep(v: &Vec<u8>)
    ensures
        v.deep_view() == v@,
{
    assert(v.deep_view() =~= v@);
}

fn line_is_blank(line: &[u8]) -> (r: bool)
    ensures
        r == blank_line(line@),
{
    match utf8_text(line) {
        Some(t) => is_blank(t.as_str()),
        None => false,
    }
}

proof fn lemma_index_error_stays(lines: Seq<Seq<u8>>, j: int)
    requires
        0 <= j <= lines.len(),
        index_lines(lines.take(j)) is Err,
    ensures
        index_lines(lines) == index_lines(lines.take(j)),
    decreases lines.len() - j,
{
    if j < lines.len() {
        assert(lines.take(j + 1).drop_last() =~= lines.take(j));
        lemma_index_error_stays(lines, j + 1);
    } else {
        assert(lines.take(j) =~= lines);
    }
}

/// The entries of the session index, from the content of its file (see
/// [`index_spec`]).
pub fn load_entries(content: &[u8]) -> (r: Result<Vec<(String, Vec<u8>)>, IndexReadError>)
    ensures
        match r {
            Ok(v) => index_spec(content@) == Ok::<Seq<(Seq<char>, Seq<u8>)>, IndexReadError>(
                v.deep_view(),
            ) && well_keyed(v.deep_view()),
            Err(e) => index_spec(content@) == Err::<Seq<(Seq<char>, Seq<u8>)>, IndexReadError>(e),
        },
{
    if utf8_text(content).is_none() {
        return Err(IndexReadError::NotText);
    }
    let lines = reader_lines_exec(content);
    let ghost all = bytes_view(lines@);
    let mut entries: Vec<(String, Vec<u8>)> = Vec::new();
    let mut k: usize = 0;
    assert(all.take(0) =~= seq![]);
    assert(entries.deep_view() =~= seq![]);
    while k < lines.len()
        invariant
            k <= lines@.len(),
            all == bytes_view(lines@),
            all == reader_lines(content@),
            valid_utf8(content@),
            well_keyed(entries.deep_view()),
            index_lines(all.take(k as int)) == Ok::<Seq<(Seq<char>, Seq<u8>)>, nat>(
                entries.deep_view(),
            ),
        decreases lines@.len() - k,
    {
        assert(all.take(k + 1).drop_last() =~= all.take(k as int));
        assert(all.take(k + 1).last() == lines@[k as int]@);
        let line = lines[k].as_slice();
        if !line_is_blank(line) {
            match json_compact(line, "") {
                None => {
                    proof {
                        lemma_index_error_stays(all, k + 1);
                    }
                    return Err(IndexReadError::InvalidLine(k + 1));
                },
                Some(None) => {},
                Some(Some(record)) => {
                    match json_text(line, "/id") {
                        Some(Some(id)) => {
                            proof {
                                lemma_bytes_deep(&record);
                            }
                            put(&mut entries, id, record);
                        },
                        _ => {},
                    }
                },
            }
        }
        k += 1;
    }
    assert(all.take(k as int) =~= all);
    Ok(entries)
}

/// The text of the index: each record's JSON text on a line of its own, in
/// ascending order of thread id.
pub open spec fn index_text_spec(entries: Seq<(Seq<char>, Seq<u8>)>) -> Seq<u8>
    decreases entries.len(),
{
    if entries.len() == 0 {
        seq![]
    } else {
        index_text_spec(entries.drop_last()) + entries.last().1.push(10u8)
    }
}

/// The text of the index (see [`index_text_spec`]).
pub fn index_text(entries: &Vec<(String, Vec<u8>)>) -> (out: Vec<u8>)
    ensures
        out@ == index_text_spec(entries.deep_view()),
{
    let ghost d = entries.deep_view();
    let mut out: Vec<u8> = Vec::new();
    let mut i: usize = 0;
    while i < entries.len()
        invariant
            i <= entries@.len(),
            d == entries.deep_view(),
            out@ == index_text_spec(d.take(i as int)),
        decreases entries@.len() - i,
    {
        assert(d.take(i + 1).drop_last() =~= d.take(i as int));
        assert(d.take(i + 1).last().1 == entries@[i as int].1@);
        let record = &entries[i].1;
        let ghost before = out@;
        let mut j: usize = 0;
        while j < record.len()
            invariant
                j <= record@.len(),
                out@ == before + record@.take(j as int),
            decreases record@.len() - j,
        {
            out.push(record[j]);
            assert(out@ =~= before + record@.take(j + 1));
            j += 1;
        }
        out.push(10u8);
        assert(out@ =~= index_text_spec(d.take(i + 1)));
        i += 1;
    }
    assert(d.take(i as int) =~= d);
    out
}

// ---------------------------------------------------------------------------
// Naming and promoting imported threads

/// The date `epoch` (seconds since 1970 in UTC) in RFC 3339 with
/// milliseconds and a `Z`, when that date can be represented.
pub uninterp spec fn utc_rfc3339_millis(epoch: i64) -> Option<Seq<char>>;

/// `chrono::DateTime::from_timestamp(epoch, 0)`, then
/// `to_rfc3339_opts(SecondsFormat::Millis, true)` (see
/// [`utc_rfc3339_millis`]).
#[verifier::external_body]
fn format_epoch(epoch: i64) -> (r: Option<String>)
    ensures
        crate::json::opt_chars(r) == utc_rfc3339_millis(epoch),
{
    chrono::DateTime::from_timestamp(epoch, 0).map(
        |d| d.to_rfc3339_opts(chrono::SecondsFormat::Millis, true),
    )
}

/// The string `thread_name` of a record, if it has one.
pub open spec fn record_name(record: Option<Seq<u8>>) -> Option<Seq<char>> {
    match record {
        Some(doc) => match json_text_at(doc, "/thread_name"@) {
            Some(Some(n)) => Some(n),
            _ => None,
        },
        None => None,
    }
}

/// A name that syncing keeps: there is one, and it is not blank.
pub open spec fn keeps_name(name: Option<Seq<char>>) -> bool {
    name matches Some(n) && trim(n).len() > 0
}

/// The sidebar name of an imported thread: the name in the target index,
/// else the one in the source index, unless that is blank; else its title,
/// or its id when the title is blank.
pub open spec fn sidebar_name(
    target_name: Option<Seq<char>>,
    source_name: Option<Seq<char>>,
    title: Seq<char>,
    id: Seq<char>,
) -> Seq<char> {
    let chosen = match target_name {
        Some(n) => Some(n),
        None => source_name,
    };
    match chosen {
        Some(n) => if trim(n).len() > 0 {
            n
        } else if trim(title).len() == 0 {
            id
        } else {
            title
        },
        None => if trim(title).len() == 0 {
            id
        } else {
            title
        },
    }
}

/// The empty JSON object.
pub open spec fn empty_object() -> Seq<u8> {
    seq![123u8, 125u8]
}

/// `doc` with `value` (JSON text) stored under `key` at its top, when that
/// can be done.
pub open spec fn with_member(doc: Seq<u8>, key: Seq<char>, value: Seq<u8>) -> Seq<u8> {
    match json_set_at(doc, ""@, key, value) {
        Some(d) => d,
        None => doc,
    }
}

/// The record of an imported thread: its record in the target index, else
/// the one in the source index, else an empty object (also in place of a
/// record that is no object), with its `id`, `thread_name` and `updated_at`
/// set.
pub open spec fn synced_record(
    target_record: Option<Seq<u8>>,
    source_record: Option<Seq<u8>>,
    id: Seq<char>,
    name: Seq<char>,
    updated_at: Seq<char>,
) -> Seq<u8> {
    let found = match target_record {
        Some(r) => r,
        None => match source_record {
            Some(r) => r,
            None => empty_object(),
        },
    };
    let base = if json_kind_at(found, ""@) == Some(Some(JsonKind::Object)) {
        found
    } else {
        empty_object()
    };
    with_member(
        with_member(
            with_member(base, "id"@, json_string_literal(id)),
            "thread_name"@,
            json_string_literal(name),
        ),
        "updated_at"@,
        json_string_literal(updated_at),
    )
}

/// The time given to the `k`th imported thread: one second before the
/// previous one, counting down from `base_epoch`.
pub open spec fn promoted_epoch(base_epoch: i64, k: nat) -> i64 {
    if base_epoch - k < i64::MIN {
        i64::MIN
    } else {
        (base_epoch - k) as i64
    }
}

/// The target index and the promoted times after the first `n` planned
/// threads were synced.
pub open spec fn sync_spec(
    target: Seq<(Seq<char>, Seq<u8>)>,
    source: Seq<(Seq<char>, Seq<u8>)>,
    planned: Seq<PlannedThread>,
    base_epoch: i64,
    now: Seq<char>,
    n: nat,
) -> (Seq<(Seq<char>, Seq<u8>)>, Seq<(Seq<char>, i64)>)
    decreases n,
{
    if n == 0 {
        (target, seq![])
    } else {
        let (index, promoted) = sync_spec(target, source, planned, base_epoch, now, (n - 1) as nat);
        let item = planned[n - 1];
        let id = item.thread.id@;
        let epoch = promoted_epoch(base_epoch, (n - 1) as nat);
        let updated_at = match utc_rfc3339_millis(epoch) {
            Some(t) => t,
            None => now,
        };
        let name = sidebar_name(
            record_name(lookup(index, id)),
            record_name(lookup(source, id)),
            item.thread.title@,
            id,
        );
        let record = synced_record(lookup(index, id), lookup(source, id), id, name, updated_at);
        (upsert(remove_key(index, id), id, record), upsert(promoted, id, epoch))
    }
}

fn thread_name_of(record: Option<&Vec<u8>>) -> (r: Option<String>)
    ensures
        crate::json::opt_chars(r) == record_name(
            match record {
                Some(d) => Some(d.deep_view()),
                None => None,
            },
        ),
{
    match record {
        Some(doc) => {
            proof {
                lemma_bytes_deep(doc);
            }
            match json_text(doc.as_slice(), "/thread_name") {
                Some(Some(n)) => Some(n),
                _ => None,
            }
        },
        None => None,
    }
}

/// The members that syncing sets have plain names, all different.
proof fn lemma_member_names()
    ensures
        simple_key("id"@),
        simple_key("thread_name"@),
        simple_key("updated_at"@),
        "id"@ != "thread_name"@,
        "id"@ != "updated_at"@,
        "thread_name"@ != "updated_at"@,
{
    reveal_strlit("id");
    reveal_strlit("thread_name");
    reveal_strlit("updated_at");
    assert("id"@.len() != "thread_name"@.len());
    assert("id"@.len() != "updated_at"@.len());
}

fn set_member(doc: Vec<u8>, key: &str, value: &str) -> (r: Vec<u8>)
    ensures
        r@ == with_member(doc@, key@, json_string_literal(value@)),
        json_kind_at(doc@, ""@) == Some(Some(JsonKind::Object)) || doc@ == empty_object() ==> {
            &&& json_kind_at(r@, ""@) == Some(Some(JsonKind::Object))
            &&& simple_key(key@) ==> json_text_at(r@, "/"@ + key@) == Some(Some(value@))
            &&& forall|other: Seq<char>|
                simple_key(key@) && simple_key(other) && other != key@ ==> #[trigger] json_text_at(
                    r@,
                    "/"@ + other,
                ) == json_text_at(doc@, "/"@ + other)
        },
{
    let literal = json_string(value);
    let ghost before = doc@;
    match json_set(doc.as_slice(), "", key, literal.as_slice()) {
        Some(d) => {
            proof {
                assert(json_string_literal(value@) == literal@);
                reveal_strlit("");
                assert(""@ + "/"@ + key@ =~= "/"@ + key@);
                assert forall|other: Seq<char>|
                    simple_key(key@) && simple_key(other) && other != key@ implies #[trigger] json_text_at(
                        d@,
                        "/"@ + other,
                    ) == json_text_at(before, "/"@ + other) by {
                    reveal_strlit("");
                    assert(""@ + "/"@ + other =~= "/"@ + other);
                }
            }
            d
        },
        None => doc,
    }
}

/// Gives the imported threads their session-index records, and the times
/// that make Codex list them first: the `k`th planned thread gets
/// `base_epoch - k` (saturating), written in RFC 3339 (`now` when that time
/// cannot be written). The promoted times come ascending by thread id, the
/// last planned entry of an id winning.
///
/// `target` and `source` are the entries of the target and the source index.
pub fn sync_imported(
    target: Vec<(String, Vec<u8>)>,
    source: &Vec<(String, Vec<u8>)>,
    planned: &[PlannedThread],
    base_epoch: i64,
    now: &str,
) -> (r: (Vec<(String, Vec<u8>)>, Vec<(String, i64)>))
    requires
        well_keyed(target.deep_view()),
        well_keyed(source.deep_view()),
        planned@.len() <= i64::MAX,
    ensures
        (r.0.deep_view(), r.1.deep_view()) == sync_spec(
            target.deep_view(),
            source.deep_view(),
            planned@,
            base_epoch,
            now@,
            planned@.len(),
        ),
        well_keyed(r.0.deep_view()),
        well_keyed(r.1.deep_view()),
        forall|k: int|
            0 <= k < planned@.len() ==> (lookup(r.0.deep_view(), (#[trigger] planned@[k]).thread.id@)
                matches Some(record) && json_text_at(record, "/id"@) == Some(
                Some(planned@[k].thread.id@),
            )),
        forall|j: Seq<char>|
            #![trigger record_name(lookup(target.deep_view(), j))]
            keeps_name(record_name(lookup(target.deep_view(), j))) ==> record_name(
                lookup(r.0.deep_view(), j),
            ) == record_name(lookup(target.deep_view(), j)),
        forall|k: int|
            0 <= k < planned@.len() && record_name(
                lookup(target.deep_view(), (#[trigger] planned@[k]).thread.id@),
            ) is None && keeps_name(record_name(lookup(source.deep_view(), planned@[k].thread.id@)))
                ==> record_name(lookup(r.0.deep_view(), planned@[k].thread.id@)) == record_name(
                lookup(source.deep_view(), planned@[k].thread.id@),
            ),
{
    let mut index = target;
    let mut promoted: Vec<(String, i64)> = Vec::new();
    let mut k: usize = 0;
    assert(promoted.deep_view() =~= seq![]);
    while k < planned.len()
        invariant
            k <= planned@.len(),
            planned@.len() <= i64::MAX,
            well_keyed(index.deep_view()),
            well_keyed(promoted.deep_view()),
            well_keyed(source.deep_view()),
            (index.deep_view(), promoted.deep_view()) == sync_spec(
                target.deep_view(),
                source.deep_view(),
                planned@,
                base_epoch,
                now@,
                k as nat,
            ),
            forall|m: int|
                0 <= m < k ==> (lookup(index.deep_view(), (#[trigger] planned@[m]).thread.id@)
                    matches Some(record) && json_text_at(record, "/id"@) == Some(
                    Some(planned@[m].thread.id@),
                )),
            forall|j: Seq<char>|
                #![trigger record_name(lookup(target.deep_view(), j))]
                keeps_name(record_name(lookup(target.deep_view(), j))) ==> record_name(
                    lookup(index.deep_view(), j),
                ) == record_name(lookup(target.deep_view(), j)),
            forall|j: Seq<char>|
                #![trigger record_name(lookup(index.deep_view(), j))]
                record_name(lookup(target.deep_view(), j)) is None && keeps_name(
                    record_name(lookup(source.deep_view(), j)),
                ) ==> (record_name(lookup(index.deep_view(), j)) is None || record_name(
                    lookup(index.deep_view(), j),
                ) == record_name(lookup(source.deep_view(), j))),
            forall|m: int|
                0 <= m < k && record_name(
                    lookup(target.deep_view(), (#[trigger] planned@[m]).thread.id@),
                ) is None && keeps_name(record_name(lookup(source.deep_view(), planned@[m].thread.id@)))
                    ==> record_name(lookup(index.deep_view(), planned@[m].thread.id@)) == record_name(
                    lookup(source.deep_view(), planned@[m].thread.id@),
                ),
        decreases planned@.len() - k,
    {
        let item = &planned[k];
        let id = item.thread.id.as_str();
        let epoch = match base_epoch.checked_sub(k as i64) {
            Some(e) => e,
            None => i64::MIN,
        };
        assert(epoch == promoted_epoch(base_epoch, k as nat));
        let updated_at = match format_epoch(epoch) {
            Some(t) => t,
            None => now.to_owned(),
        };
        let target_name = thread_name_of(get(&index, id));
        let source_name = thread_name_of(get(source, id));
        let chosen = match target_name {
            Some(n) => Some(n),
            None => source_name,
        };
        let name = match chosen {
            Some(n) => {
                if !is_blank(n.as_str()) {
                    n
                } else if is_blank(item.thread.title.as_str()) {
                    item.thread.id.clone()
                } else {
                    item.thread.title.clone()
                }
            },
            None => {
                if is_blank(item.thread.title.as_str()) {
                    item.thread.id.clone()
                } else {
                    item.thread.title.clone()
                }
            },
        };
        let ghost before = index.deep_view();
        let found = match take(&mut index, id) {
            Some(r) => {
                proof {
                    lemma_bytes_deep(&r);
                }
                r
            },
            None => match get(source, id) {
                Some(r) => {
                    proof {
                        lemma_bytes_deep(r);
                    }
                    r.clone()
                },
                None => {
                    let e = vec![123u8, 125u8];
                    assert(e@ =~= empty_object());
                    e
                },
            },
        };
        let base = if json_kind(found.as_slice(), "") == Some(Some(JsonKind::Object)) {
            found
        } else {
            let e = vec![123u8, 125u8];
            assert(e@ =~= empty_object());
            e
        };
        let with_id = set_member(base, "id", id);
        let with_name = set_member(with_id, "thread_name", name.as_str());
        let record = set_member(with_name, "updated_at", updated_at.as_str());
        proof {
            lemma_bytes_deep(&record);
            lemma_member_names();
            assert(json_text_at(record@, "/"@ + "id"@) == Some(Some(id@)));
            reveal_strlit("/");
            reveal_strlit("id");
            reveal_strlit("/id");
            assert("/"@ + "id"@ =~= "/id"@);
            reveal_strlit("thread_name");
            reveal_strlit("/thread_name");
            assert("/"@ + "thread_name"@ =~= "/thread_name"@);
            assert(json_text_at(record@, "/"@ + "thread_name"@) == Some(Some(name@)));
        }
        let ghost taken = index.deep_view();
        let ghost stored = record.deep_view();
        put(&mut index, item.thread.id.clone(), record);
        proof {
            assert forall|m: int|
                0 <= m < k + 1 implies (lookup(index.deep_view(), (#[trigger] planned@[m]).thread.id@)
                matches Some(r) && json_text_at(r, "/id"@) == Some(Some(planned@[m].thread.id@))) by {
                let j = planned@[m].thread.id@;
                law_lookup_after_upsert(taken, id@, stored, j);
                law_lookup_after_remove(before, id@, j);
            }
            assert forall|j: Seq<char>|
                #![trigger record_name(lookup(target.deep_view(), j))]
                keeps_name(record_name(lookup(target.deep_view(), j))) implies record_name(
                    lookup(index.deep_view(), j),
                ) == record_name(lookup(target.deep_view(), j)) by {
                law_lookup_after_upsert(taken, id@, stored, j);
                law_lookup_after_remove(before, id@, j);
                if j == id@ {
                    assert(record_name(lookup(before, j)) == record_name(lookup(target.deep_view(), j)));
                }
            }
            assert forall|j: Seq<char>|
                #![trigger record_name(lookup(index.deep_view(), j))]
                record_name(lookup(target.deep_view(), j)) is None && keeps_name(
                    record_name(lookup(source.deep_view(), j)),
                ) implies (record_name(lookup(index.deep_view(), j)) is None || record_name(
                    lookup(index.deep_view(), j),
                ) == record_name(lookup(source.deep_view(), j))) by {
                law_lookup_after_upsert(taken, id@, stored, j);
                law_lookup_after_remove(before, id@, j);
                if j != id@ {
                    assert(record_name(lookup(index.deep_view(), j)) == record_name(lookup(before, j)));
                }
            }
            assert forall|m: int|
                0 <= m < k + 1 && record_name(
                    lookup(target.deep_view(), (#[trigger] planned@[m]).thread.id@),
                ) is None && keeps_name(record_name(lookup(source.deep_view(), planned@[m].thread.id@)))
                    implies record_name(lookup(index.deep_view(), planned@[m].thread.id@)) == record_name(
                    lookup(source.deep_view(), planned@[m].thread.id@),
                ) by {
                let j = planned@[m].thread.id@;
                law_lookup_after_upsert(taken, id@, stored, j);
                law_lookup_after_remove(before, id@, j);
                if j != id@ {
                    assert(record_name(lookup(index.deep_view(), j)) == record_name(lookup(before, j)));
                }
            }
        }
        put(&mut promoted, item.thread.id.clone(), epoch);
        k += 1;
    }
    (index, promoted)
}

/// After the planned threads are synced, the index has an entry for every
/// one of them (what [`verify_contains`] checks), and the promoted times
/// hold one for every one of them.
pub proof fn law_sync_indexes_every_planned_thread(
    target: Seq<(Seq<char>, Seq<u8>)>,
    source: Seq<(Seq<char>, Seq<u8>)>,
    planned: Seq<PlannedThread>,
    base_epoch: i64,
    now: Seq<char>,
    n: nat,
)
    requires
        n <= planned.len(),
    ensures
        forall|k: int|
            0 <= k < n ==> lookup(
                sync_spec(target, source, planned, base_epoch, now, n).0,
                (#[trigger] planned[k]).thread.id@,
            ) is Some && lookup(
                sync_spec(target, source, planned, base_epoch, now, n).1,
                planned[k].thread.id@,
            ) is Some,
    decreases n,
{
    if n > 0 {
        law_sync_indexes_every_planned_thread(target, source, planned, base_epoch, now, (n - 1) as nat);
        let (index, promoted) = sync_spec(target, source, planned, base_epoch, now, (n - 1) as nat);
        let item = planned[n - 1];
        let id = item.thread.id@;
        let epoch = promoted_epoch(base_epoch, (n - 1) as nat);
        let updated_at = match utc_rfc3339_millis(epoch) {
            Some(t) => t,
            None => now,
        };
        let name = sidebar_name(
            record_name(lookup(index, id)),
            record_name(lookup(source, id)),
            item.thread.title@,
            id,
        );
        let record = synced_record(lookup(index, id), lookup(source, id), id, name, updated_at);
        assert forall|k: int| 0 <= k < n implies lookup(
            sync_spec(target, source, planned, base_epoch, now, n).0,
            (#[trigger] planned[k]).thread.id@,
        ) is Some && lookup(
            sync_spec(target, source, planned, base_epoch, now, n).1,
            planned[k].thread.id@,
        ) is Some by {
            let j = planned[k].thread.id@;
            law_lookup_after_upsert(remove_key(index, id), id, record, j);
            law_lookup_after_remove(index, id, j);
            law_lookup_after_upsert(promoted, id, epoch, j);
        }
    }
}

/// No one of the first `n` planned threads has the id `j`.
pub open spec fn not_planned(planned: Seq<PlannedThread>, n: nat, j: Seq<char>) -> bool {
    forall|k: int| 0 <= k < n ==> (#[trigger] planned[k]).thread.id@ != j
}

/// Planned entry `k` is the last of the first `n` with its id.
pub open spec fn last_planned(planned: Seq<PlannedThread>, n: nat, k: int) -> bool {
    &&& 0 <= k < n
    &&& forall|m: int| k < m < n ==> (#[trigger] planned[m]).thread.id@ != planned[k].thread.id@
}

/// Syncing touches only the planned threads: any other entry of the index is
/// kept as it was, and only planned threads get a promoted time; and the
/// promoted time of a thread is the one of its last planned entry, the
/// `k`th entry getting `base_epoch - k` (saturating).
pub proof fn law_sync_keeps_others_and_spaces_times(
    target: Seq<(Seq<char>, Seq<u8>)>,
    source: Seq<(Seq<char>, Seq<u8>)>,
    planned: Seq<PlannedThread>,
    base_epoch: i64,
    now: Seq<char>,
    n: nat,
)
    requires
        n <= planned.len(),
    ensures
        forall|j: Seq<char>|
            #[trigger] not_planned(planned, n, j) ==> lookup(
                sync_spec(target, source, planned, base_epoch, now, n).0,
                j,
            ) == lookup(target, j) && lookup(
                sync_spec(target, source, planned, base_epoch, now, n).1,
                j,
            ) is None,
        forall|k: int|
            #[trigger] last_planned(planned, n, k) ==> lookup(
                sync_spec(target, source, planned, base_epoch, now, n).1,
                planned[k].thread.id@,
            ) == Some(promoted_epoch(base_epoch, k as nat)),
    decreases n,
{
    if n > 0 {
        let m = (n - 1) as nat;
        law_sync_keeps_others_and_spaces_times(target, source, planned, base_epoch, now, m);
        let (index, promoted) = sync_spec(target, source, planned, base_epoch, now, m);
        let item = planned[n - 1];
        let id = item.thread.id@;
        let epoch = promoted_epoch(base_epoch, m);
        let updated_at = match utc_rfc3339_millis(epoch) {
            Some(t) => t,
            None => now,
        };
        let name = sidebar_name(
            record_name(lookup(index, id)),
            record_name(lookup(source, id)),
            item.thread.title@,
            id,
        );
        let record = synced_record(lookup(index, id), lookup(source, id), id, name, updated_at);
        let after = sync_spec(target, source, planned, base_epoch, now, n);
        assert(after == (upsert(remove_key(index, id), id, record), upsert(promoted, id, epoch)));
        assert forall|j: Seq<char>| #[trigger] not_planned(planned, n, j) implies lookup(after.0, j)
            == lookup(target, j) && lookup(after.1, j) is None by {
            assert(planned[n - 1].thread.id@ != j);
            assert(not_planned(planned, m, j));
            law_lookup_after_upsert(remove_key(index, id), id, record, j);
            law_lookup_after_remove(index, id, j);
            law_lookup_after_upsert(promoted, id, epoch, j);
        }
        assert forall|k: int| #[trigger] last_planned(planned, n, k) implies lookup(
            after.1,
            planned[k].thread.id@,
        ) == Some(promoted_epoch(base_epoch, k as nat)) by {
            let j = planned[k].thread.id@;
            law_lookup_after_upsert(promoted, id, epoch, j);
            if k < n - 1 {
                assert(planned[n - 1].thread.id@ != j);
                assert(last_planned(planned, m, k));
            }
        }
    }
}

} // verus!
