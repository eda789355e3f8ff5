//! The statements that register a thread in the Codex state database,
//! written for whichever columns the database's `threads` table has.
use crate::merge::has_string;
use crate::model::ThreadRecord;
use crate::text::{chars_of, extend_chars, is_blank, string_of, trim};
use vstd::prelude::*;

verus! {

/// A value bound to a statement parameter.
#[derive(Debug, Clone, PartialEq, Eq)]
pub enum SqlValue {
    Null,
    Integer(i64),
    Text(String),
}

/// A value bound to a statement parameter, by the view of its text.
pub enum SqlValueView {
    Null,
    Integer(i64),
    Text(Seq<char>),
}

pub open spec fn value_view(v: SqlValue) -> SqlValueView {
    match v {
        SqlValue::Null => SqlValueView::Null,
        SqlValue::Integer(i) => SqlValueView::Integer(i),
        SqlValue::Text(s) => SqlValueView::Text(s@),
    }
}

pub open spec fn values_view(v: Seq<SqlValue>) -> Seq<SqlValueView> {
    v.map_values(|x: SqlValue| value_view(x))
}

/// An SQL statement and the values of its numbered parameters `?1`, `?2`, ...
#[derive(Debug, Clone)]
pub struct SqlStatement {
    pub sql: String,
    pub params: Vec<SqlValue>,
}

/// Why a thread cannot be registered.
#[derive(Debug, Clone, PartialEq, Eq)]
pub enum SchemaError {
    /// The `threads` table lacks a column that every thread needs.
    MissingColumn(String),
}

impl SchemaError {
    /// The message shown to the user.
    pub fn message(&self) -> (s: String)
        ensures
            s@ == match self {
                SchemaError::MissingColumn(column) => "unsupported threads schema: missing required column "@
                    + column@,
            },
    {
        match self {
            SchemaError::MissingColumn(column) => {
                let mut out = String::new();
                crate::text::string_push_str(
                    &mut out,
                    "unsupported threads schema: missing required column ",
                );
                crate::text::string_push_str(&mut out, column.as_str());
                out
            },
        }
    }
}

// ---------------------------------------------------------------------------
// Numbers

/// `x * 1000`, clamped to the range of `i64` (`i64::saturating_mul`).
pub open spec fn millis(x: i64) -> i64 {
    if x * 1000 > i64::MAX {
        i64::MAX
    } else if x * 1000 < i64::MIN {
        i64::MIN
    } else {
        (x * 1000) as i64
    }
}

pub fn millis_of(x: i64) -> (r: i64)
    ensures
        r == millis(x),
{
    match x.checked_mul(1000) {
        Some(v) => v,
        None => if x > 0 {
            i64::MAX
        } else {
            i64::MIN
        },
    }
}

pub open spec fn digit_char(d: nat) -> char {
    (48 + d) as char
}

/// The decimal digits of `n`.
pub open spec fn decimal(n: nat) -> Seq<char>
    decreases n,
{
    if n < 10 {
        seq![digit_char(n)]
    } else {
        decimal(n / 10).push(digit_char(n % 10))
    }
}

pub fn push_decimal(out: &mut Vec<char>, n: usize)
    ensures
        final(out)@ == old(out)@ + decimal(n as nat),
    decreases n,
{
    if n >= 10 {
        push_decimal(out, n / 10);
    }
    let d = (n % 10) as u8;
    let c = crate::text::char_from_ascii(48 + d);
    assert(c == digit_char((n % 10) as nat));
    out.push(c);
    assert(out@ =~= old(out)@ + decimal(n as nat));
}

// ---------------------------------------------------------------------------
// Column values

pub open spec fn opt_text(o: Option<String>) -> SqlValueView {
    match o {
        Some(s) => SqlValueView::Text(s@),
        None => SqlValueView::Null,
    }
}

pub open spec fn text_or(o: Option<String>, fallback: Seq<char>) -> SqlValueView {
    match o {
        Some(s) => SqlValueView::Text(s@),
        None => SqlValueView::Text(fallback),
    }
}

/// What the thread list shows: the first user message, or the title when
/// the message is blank.
pub open spec fn preview_spec(thread: ThreadRecord) -> Seq<char> {
    if trim(thread.first_user_message@).len() == 0 {
        thread.title@
    } else {
        thread.first_user_message@
    }
}

pub fn preview_text(thread: &ThreadRecord) -> (r: String)
    ensures
        r@ == preview_spec(*thread),
{
    if is_blank(thread.first_user_message.as_str()) {
        thread.title.clone()
    } else {
        thread.first_user_message.clone()
    }
}

pub open spec fn default_sandbox_policy_spec() -> Seq<char> {
    "{\"type\":\"workspace-write\",\"writable_roots\":[],\"network_access\":false}"@
}

/// The sandbox policy recorded for a thread that has none.
pub fn default_sandbox_policy() -> (r: String)
    ensures
        r@ == default_sandbox_policy_spec(),
{
    owned("{\"type\":\"workspace-write\",\"writable_roots\":[],\"network_access\":false}")
}

fn owned(s: &str) -> (r: String)
    ensures
        r@ == s@,
{
    let v = chars_of(s);
    string_of(v.as_slice())
}

pub open spec fn archived_at(thread: ThreadRecord) -> SqlValueView {
    if thread.archived {
        SqlValueView::Integer(thread.updated_at)
    } else {
        SqlValueView::Null
    }
}

pub open spec fn flag(b: bool) -> i64 {
    if b {
        1
    } else {
        0
    }
}

/// The columns an update writes, in order, with their values.
pub open spec fn update_candidates(thread: ThreadRecord, rollout_path: Seq<char>, cwd: Seq<char>) -> Seq<
    (Seq<char>, SqlValueView),
> {
    seq![
        ("rollout_path"@, SqlValueView::Text(rollout_path)),
        ("cwd"@, SqlValueView::Text(cwd)),
        ("title"@, SqlValueView::Text(thread.title@)),
        ("created_at"@, SqlValueView::Integer(thread.created_at)),
        ("updated_at"@, SqlValueView::Integer(thread.updated_at)),
        ("source"@, SqlValueView::Text(thread.source@)),
        ("thread_source"@, text_or(thread.thread_source, "user"@)),
        ("model_provider"@, SqlValueView::Text(thread.model_provider@)),
        ("archived"@, SqlValueView::Integer(flag(thread.archived))),
        ("archived_at"@, archived_at(thread)),
        ("cli_version"@, SqlValueView::Text(thread.cli_version@)),
        ("first_user_message"@, SqlValueView::Text(thread.first_user_message@)),
        ("preview"@, SqlValueView::Text(preview_spec(thread))),
        ("model"@, opt_text(thread.model)),
        ("reasoning_effort"@, opt_text(thread.reasoning_effort)),
        ("created_at_ms"@, SqlValueView::Integer(millis(thread.created_at))),
        ("updated_at_ms"@, SqlValueView::Integer(millis(thread.updated_at))),
        ("recency_at"@, SqlValueView::Integer(thread.updated_at)),
        ("recency_at_ms"@, SqlValueView::Integer(millis(thread.updated_at))),
    ]
}

/// The columns an insert writes, in order, with their values.
pub open spec fn insert_candidates(thread: ThreadRecord, rollout_path: Seq<char>, cwd: Seq<char>) -> Seq<
    (Seq<char>, SqlValueView),
> {
    seq![
        ("id"@, SqlValueView::Text(thread.id@)),
        ("rollout_path"@, SqlValueView::Text(rollout_path)),
        ("created_at"@, SqlValueView::Integer(thread.created_at)),
        ("updated_at"@, SqlValueView::Integer(thread.updated_at)),
        ("source"@, SqlValueView::Text(thread.source@)),
        ("thread_source"@, text_or(thread.thread_source, "user"@)),
        ("model_provider"@, SqlValueView::Text(thread.model_provider@)),
        ("cwd"@, SqlValueView::Text(cwd)),
        ("title"@, SqlValueView::Text(thread.title@)),
        ("sandbox_policy"@, text_or(thread.sandbox_policy, default_sandbox_policy_spec())),
        ("approval_mode"@, text_or(thread.approval_mode, "on-request"@)),
        ("tokens_used"@, SqlValueView::Integer(0)),
        ("has_user_event"@, SqlValueView::Integer(1)),
        ("archived"@, SqlValueView::Integer(flag(thread.archived))),
        ("archived_at"@, archived_at(thread)),
        ("cli_version"@, SqlValueView::Text(thread.cli_version@)),
        ("first_user_message"@, SqlValueView::Text(thread.first_user_message@)),
        ("preview"@, SqlValueView::Text(preview_spec(thread))),
        ("memory_mode"@, SqlValueView::Text("enabled"@)),
        ("model"@, opt_text(thread.model)),
        ("reasoning_effort"@, opt_text(thread.reasoning_effort)),
        ("created_at_ms"@, SqlValueView::Integer(millis(thread.created_at))),
        ("updated_at_ms"@, SqlValueView::Integer(millis(thread.updated_at))),
        ("recency_at"@, SqlValueView::Integer(thread.updated_at)),
        ("recency_at_ms"@, SqlValueView::Integer(millis(thread.updated_at))),
    ]
}

/// The columns a promotion writes, in order, with their values.
pub open spec fn promote_candidates(updated_at: i64) -> Seq<(Seq<char>, SqlValueView)> {
    seq![
        ("updated_at"@, SqlValueView::Integer(updated_at)),
        ("updated_at_ms"@, SqlValueView::Integer(millis(updated_at))),
        ("recency_at"@, SqlValueView::Integer(updated_at)),
        ("recency_at_ms"@, SqlValueView::Integer(millis(updated_at))),
    ]
}

/// The candidates whose column the table has, in their order.
pub open spec fn present(
    candidates: Seq<(Seq<char>, SqlValueView)>,
    columns: Seq<String>,
) -> Seq<(Seq<char>, SqlValueView)>
    decreases candidates.len(),
{
    if candidates.len() == 0 {
        candidates
    } else {
        let before = present(candidates.drop_last(), columns);
        if has_string(columns, candidates.last().0) {
            before.push(candidates.last())
        } else {
            before
        }
    }
}

pub proof fn lemma_present_len(candidates: Seq<(Seq<char>, SqlValueView)>, columns: Seq<String>)
    ensures
        present(candidates, columns).len() <= candidates.len(),
    decreases candidates.len(),
{
    if candidates.len() > 0 {
        lemma_present_len(candidates.drop_last(), columns);
    }
}

// ---------------------------------------------------------------------------
// Statement text

/// `a=?1, b=?2, ...` for the names, numbered from `first`.
pub open spec fn assignments(names: Seq<Seq<char>>, first: nat) -> Seq<char>
    decreases names.len(),
{
    if names.len() == 0 {
        seq![]
    } else {
        let k = names.len() - 1;
        let item = names[k] + "=?"@ + decimal((first + k) as nat);
        if k == 0 {
            item
        } else {
            assignments(names.drop_last(), first) + ", "@ + item
        }
    }
}

/// `?1, ?2, ...` with `n` placeholders.
pub open spec fn placeholders(n: nat) -> Seq<char>
    decreases n,
{
    if n == 0 {
        seq![]
    } else if n == 1 {
        "?1"@
    } else {
        placeholders((n - 1) as nat) + ", ?"@ + decimal(n)
    }
}

/// The names joined by `, `.
pub open spec fn name_list(names: Seq<Seq<char>>) -> Seq<char>
    decreases names.len(),
{
    if names.len() == 0 {
        seq![]
    } else if names.len() == 1 {
        names[0]
    } else {
        name_list(names.drop_last()) + ", "@ + names.last()
    }
}

pub open spec fn names_of(c: Seq<(Seq<char>, SqlValueView)>) -> Seq<Seq<char>> {
    c.map_values(|p: (Seq<char>, SqlValueView)| p.0)
}

pub open spec fn values_of(c: Seq<(Seq<char>, SqlValueView)>) -> Seq<SqlValueView> {
    c.map_values(|p: (Seq<char>, SqlValueView)| p.1)
}

/// `UPDATE threads SET a=?1, ... WHERE id=?n`, the id bound last.
pub open spec fn update_statement_spec(
    chosen: Seq<(Seq<char>, SqlValueView)>,
    id: Seq<char>,
    sql: Seq<char>,
    params: Seq<SqlValueView>,
) -> bool {
    &&& sql == "UPDATE threads SET "@ + assignments(names_of(chosen), 1) + " WHERE id=?"@ + decimal(
        chosen.len() + 1,
    )
    &&& params == values_of(chosen).push(SqlValueView::Text(id))
}

/// `INSERT INTO threads (a, b, ...) VALUES (?1, ?2, ...)`.
pub open spec fn insert_statement_spec(
    chosen: Seq<(Seq<char>, SqlValueView)>,
    sql: Seq<char>,
    params: Seq<SqlValueView>,
) -> bool {
    &&& sql == "INSERT INTO threads ("@ + name_list(names_of(chosen)) + ") VALUES ("@
        + placeholders(chosen.len()) + ")"@
    &&& params == values_of(chosen)
}

// ---------------------------------------------------------------------------
// Building statements

fn lit(s: &str) -> (v: Vec<char>)
    ensures
        v@ == s@,
{
    chars_of(s)
}

/// Keeps the candidates whose column the table has.
fn choose_present(
    names: &Vec<Vec<char>>,
    values: Vec<SqlValue>,
    columns: &[String],
    ghost_candidates: Ghost<Seq<(Seq<char>, SqlValueView)>>,
) -> (r: (Vec<Vec<char>>, Vec<SqlValue>))
    requires
        names@.len() == values@.len(),
        ghost_candidates@.len() == names@.len(),
        forall|k: int| 0 <= k < names@.len() ==> names@[k]@ == ghost_candidates@[k].0,
        forall|k: int|
            0 <= k < names@.len() ==> value_view(#[trigger] values@[k]) == ghost_candidates@[k].1,
    ensures
        r.0@.len() == r.1@.len(),
        r.0@.len() == present(ghost_candidates@, columns@).len(),
        forall|k: int|
            0 <= k < r.0@.len() ==> r.0@[k]@ == present(ghost_candidates@, columns@)[k].0,
        forall|k: int|
            0 <= k < r.0@.len() ==> value_view(#[trigger] r.1@[k]) == present(
                ghost_candidates@,
                columns@,
            )[k].1,
{
    let ghost cands = ghost_candidates@;
    let mut out_names: Vec<Vec<char>> = Vec::new();
    let mut out_values: Vec<SqlValue> = Vec::new();
    let mut rest = values;
    let mut i: usize = 0;
    let total = names.len();
    while i < total
        invariant
            total == names@.len(),
            i <= total,
            rest@.len() == total - i,
            cands.len() == total,
            forall|k: int|
                0 <= k < rest@.len() ==> value_view(#[trigger] rest@[k]) == cands[i + k].1,
            forall|k: int| 0 <= k < names@.len() ==> names@[k]@ == cands[k].0,
            out_names@.len() == out_values@.len(),
            out_names@.len() == present(cands.take(i as int), columns@).len(),
            forall|k: int|
                0 <= k < out_names@.len() ==> out_names@[k]@ == present(
                    cands.take(i as int),
                    columns@,
                )[k].0,
            forall|k: int|
                0 <= k < out_names@.len() ==> value_view(#[trigger] out_values@[k]) == present(
                    cands.take(i as int),
                    columns@,
                )[k].1,
        decreases total - i,
    {
        let ghost rest_before = rest@;
        let v = rest.remove(0);
        assert(value_view(v) == cands[i as int].1) by {
            assert(value_view(rest_before[0]) == cands[i + 0].1);
        }
        assert forall|k: int| 0 <= k < rest@.len() implies value_view(#[trigger] rest@[k])
            == cands[(i + 1) + k].1 by {
            assert(rest@[k] == rest_before[k + 1]);
            assert(value_view(rest_before[k + 1]) == cands[i + (k + 1)].1);
        }
        let name_str = string_of(names[i].as_slice());
        assert(cands.take(i + 1).drop_last() =~= cands.take(i as int));
        assert(cands.take(i + 1).last() == cands[i as int]);
        if crate::merge::contains_string(columns, name_str.as_str()) {
            let copy = crate::text::copy_chars(names[i].as_slice());
            out_names.push(copy);
            out_values.push(v);
        }
        i += 1;
    }
    assert(cands.take(total as int) =~= cands);
    (out_names, out_values)
}

fn push_str_chars(out: &mut Vec<char>, s: &str)
    ensures
        final(out)@ == old(out)@ + s@,
{
    let v = chars_of(s);
    extend_chars(out, v.as_slice());
}

/// `a=?1, b=?2, ...`.
fn assignments_exec(names: &Vec<Vec<char>>) -> (out: Vec<char>)
    requires
        names@.len() < usize::MAX,
    ensures
        out@ == assignments(names@.map_values(|n: Vec<char>| n@), 1),
{
    let ghost all = names@.map_values(|n: Vec<char>| n@);
    let mut out: Vec<char> = Vec::new();
    let mut i: usize = 0;
    while i < names.len()
        invariant
            i <= names@.len(),
            names@.len() < usize::MAX,
            all == names@.map_values(|n: Vec<char>| n@),
            out@ == assignments(all.take(i as int), 1),
        decreases names@.len() - i,
    {
        assert(all.take(i + 1).drop_last() =~= all.take(i as int));
        assert(all.take(i + 1)[i as int] == names@[i as int]@);
        let ghost before = out@;
        if i > 0 {
            push_str_chars(&mut out, ", ");
        }
        extend_chars(&mut out, names[i].as_slice());
        push_str_chars(&mut out, "=?");
        push_decimal(&mut out, i + 1);
        assert(out@ =~= assignments(all.take(i + 1), 1));
        i += 1;
    }
    assert(all.take(names@.len() as int) =~= all);
    out
}

/// `a, b, ...`.
fn name_list_exec(names: &Vec<Vec<char>>) -> (out: Vec<char>)
    ensures
        out@ == name_list(names@.map_values(|n: Vec<char>| n@)),
{
    let ghost all = names@.map_values(|n: Vec<char>| n@);
    let mut out: Vec<char> = Vec::new();
    let mut i: usize = 0;
    while i < names.len()
        invariant
            i <= names@.len(),
            all == names@.map_values(|n: Vec<char>| n@),
            out@ == name_list(all.take(i as int)),
        decreases names@.len() - i,
    {
        assert(all.take(i + 1).drop_last() =~= all.take(i as int));
        assert(all.take(i + 1)[i as int] == names@[i as int]@);
        if i > 0 {
            push_str_chars(&mut out, ", ");
        }
        extend_chars(&mut out, names[i].as_slice());
        assert(out@ =~= name_list(all.take(i + 1)));
        i += 1;
    }
    assert(all.take(names@.len() as int) =~= all);
    out
}

/// `?1, ?2, ...`.
fn placeholders_exec(n: usize) -> (out: Vec<char>)
    ensures
        out@ == placeholders(n as nat),
{
    let mut out: Vec<char> = Vec::new();
    let mut i: usize = 0;
    while i < n
        invariant
            i <= n,
            out@ == placeholders(i as nat),
        decreases n - i,
    {
        if i == 0 {
            push_str_chars(&mut out, "?1");
        } else {
            push_str_chars(&mut out, ", ?");
            push_decimal(&mut out, i + 1);
        }
        assert(out@ =~= placeholders((i + 1) as nat));
        i += 1;
    }
    out
}

fn add_candidate(
    names: &mut Vec<Vec<char>>,
    values: &mut Vec<SqlValue>,
    name: &str,
    value: SqlValue,
)
    ensures
        final(names)@.len() == old(names)@.len() + 1,
        forall|k: int| 0 <= k < old(names)@.len() ==> final(names)@[k] == old(names)@[k],
        final(names)@[old(names)@.len() as int]@ == name@,
        final(values)@ == old(values)@.push(value),
{
    names.push(chars_of(name));
    values.push(value);
}

fn text_value(s: &String) -> (v: SqlValue)
    ensures
        value_view(v) == SqlValueView::Text(s@),
{
    SqlValue::Text(s.clone())
}

fn opt_text_value(o: &Option<String>) -> (v: SqlValue)
    ensures
        value_view(v) == opt_text(*o),
{
    match o {
        Some(s) => SqlValue::Text(s.clone()),
        None => SqlValue::Null,
    }
}

fn text_or_value(o: &Option<String>, fallback: &str) -> (v: SqlValue)
    ensures
        value_view(v) == text_or(*o, fallback@),
{
    match o {
        Some(s) => SqlValue::Text(s.clone()),
        None => SqlValue::Text(owned(fallback)),
    }
}

fn archived_at_value(thread: &ThreadRecord) -> (v: SqlValue)
    ensures
        value_view(v) == archived_at(*thread),
{
    if thread.archived {
        SqlValue::Integer(thread.updated_at)
    } else {
        SqlValue::Null
    }
}

/// The statement text and values that write `chosen`, from the exec lists.
proof fn lemma_chosen_views(
    names: Seq<Vec<char>>,
    values: Seq<SqlValue>,
    chosen: Seq<(Seq<char>, SqlValueView)>,
)
    requires
        names.len() == values.len(),
        names.len() == chosen.len(),
        forall|k: int| 0 <= k < names.len() ==> names[k]@ == chosen[k].0,
        forall|k: int| 0 <= k < names.len() ==> value_view(#[trigger] values[k]) == chosen[k].1,
    ensures
        names.map_values(|n: Vec<char>| n@) == names_of(chosen),
        values_view(values) == values_of(chosen),
{
    assert(names.map_values(|n: Vec<char>| n@) =~= names_of(chosen));
    assert(values_view(values) =~= values_of(chosen));
}

/// The statement that rewrites the row of an existing thread: every column
/// of [`update_candidates`] that the table has, in that order.
pub fn update_statement(
    columns: &[String],
    thread: &ThreadRecord,
    rollout_path: &str,
    cwd: &str,
) -> (st: SqlStatement)
    ensures
        update_statement_spec(
            present(update_candidates(*thread, rollout_path@, cwd@), columns@),
            thread.id@,
            st.sql@,
            values_view(st.params@),
        ),
{
    let ghost cands = update_candidates(*thread, rollout_path@, cwd@);
    let mut names: Vec<Vec<char>> = Vec::new();
    let mut values: Vec<SqlValue> = Vec::new();
    add_candidate(&mut names, &mut values, "rollout_path", SqlValue::Text(owned(rollout_path)));
    add_candidate(&mut names, &mut values, "cwd", SqlValue::Text(owned(cwd)));
    add_candidate(&mut names, &mut values, "title", text_value(&thread.title));
    add_candidate(&mut names, &mut values, "created_at", SqlValue::Integer(thread.created_at));
    add_candidate(&mut names, &mut values, "updated_at", SqlValue::Integer(thread.updated_at));
    add_candidate(&mut names, &mut values, "source", text_value(&thread.source));
    add_candidate(&mut names, &mut values, "thread_source", text_or_value(&thread.thread_source, "user"));
    add_candidate(&mut names, &mut values, "model_provider", text_value(&thread.model_provider));
    add_candidate(&mut names, &mut values, "archived", SqlValue::Integer(if thread.archived { 1 } else { 0 }));
    add_candidate(&mut names, &mut values, "archived_at", archived_at_value(thread));
    add_candidate(&mut names, &mut values, "cli_version", text_value(&thread.cli_version));
    add_candidate(&mut names, &mut values, "first_user_message", text_value(&thread.first_user_message));
    add_candidate(&mut names, &mut values, "preview", SqlValue::Text(preview_text(thread)));
    add_candidate(&mut names, &mut values, "model", opt_text_value(&thread.model));
    add_candidate(&mut names, &mut values, "reasoning_effort", opt_text_value(&thread.reasoning_effort));
    add_candidate(&mut names, &mut values, "created_at_ms", SqlValue::Integer(millis_of(thread.created_at)));
    add_candidate(&mut names, &mut values, "updated_at_ms", SqlValue::Integer(millis_of(thread.updated_at)));
    add_candidate(&mut names, &mut values, "recency_at", SqlValue::Integer(thread.updated_at));
    add_candidate(&mut names, &mut values, "recency_at_ms", SqlValue::Integer(millis_of(thread.updated_at)));
    assert(names@.len() == cands.len());
    assert forall|k: int| 0 <= k < names@.len() implies names@[k]@ == cands[k].0 by {}
    assert forall|k: int| 0 <= k < names@.len() implies value_view(#[trigger] values@[k])
        == cands[k].1 by {}
    let (chosen_names, mut params) = choose_present(&names, values, columns, Ghost(cands));
    let ghost chosen = present(cands, columns@);
    proof {
        lemma_chosen_views(chosen_names@, params@, chosen);
        lemma_present_len(cands, columns@);
    }
    let mut sql = lit("UPDATE threads SET ");
    let a = assignments_exec(&chosen_names);
    extend_chars(&mut sql, a.as_slice());
    push_str_chars(&mut sql, " WHERE id=?");
    push_decimal(&mut sql, params.len() + 1);
    let ghost before = params@;
    params.push(text_value(&thread.id));
    assert(values_view(params@) =~= values_view(before).push(SqlValueView::Text(thread.id@)));
    SqlStatement { sql: string_of(sql.as_slice()), params }
}

/// The statement that adds the row of a new thread: every column of
/// [`insert_candidates`] that the table has, in that order.
pub fn insert_statement(
    columns: &[String],
    thread: &ThreadRecord,
    rollout_path: &str,
    cwd: &str,
) -> (st: SqlStatement)
    ensures
        insert_statement_spec(
            present(insert_candidates(*thread, rollout_path@, cwd@), columns@),
            st.sql@,
            values_view(st.params@),
        ),
{
    let ghost cands = insert_candidates(*thread, rollout_path@, cwd@);
    let mut names: Vec<Vec<char>> = Vec::new();
    let mut values: Vec<SqlValue> = Vec::new();
    add_candidate(&mut names, &mut values, "id", text_value(&thread.id));
    add_candidate(&mut names, &mut values, "rollout_path", SqlValue::Text(owned(rollout_path)));
    add_candidate(&mut names, &mut values, "created_at", SqlValue::Integer(thread.created_at));
    add_candidate(&mut names, &mut values, "updated_at", SqlValue::Integer(thread.updated_at));
    add_candidate(&mut names, &mut values, "source", text_value(&thread.source));
    add_candidate(&mut names, &mut values, "thread_source", text_or_value(&thread.thread_source, "user"));
    add_candidate(&mut names, &mut values, "model_provider", text_value(&thread.model_provider));
    add_candidate(&mut names, &mut values, "cwd", SqlValue::Text(owned(cwd)));
    add_candidate(&mut names, &mut values, "title", text_value(&thread.title));
    let sandbox = match &thread.sandbox_policy {
        Some(p) => SqlValue::Text(p.clone()),
        None => SqlValue::Text(default_sandbox_policy()),
    };
    add_candidate(&mut names, &mut values, "sandbox_policy", sandbox);
    add_candidate(&mut names, &mut values, "approval_mode", text_or_value(&thread.approval_mode, "on-request"));
    add_candidate(&mut names, &mut values, "tokens_used", SqlValue::Integer(0));
    add_candidate(&mut names, &mut values, "has_user_event", SqlValue::Integer(1));
    add_candidate(&mut names, &mut values, "archived", SqlValue::Integer(if thread.archived { 1 } else { 0 }));
    add_candidate(&mut names, &mut values, "archived_at", archived_at_value(thread));
    add_candidate(&mut names, &mut values, "cli_version", text_value(&thread.cli_version));
    add_candidate(&mut names, &mut values, "first_user_message", text_value(&thread.first_user_message));
    add_candidate(&mut names, &mut values, "preview", SqlValue::Text(preview_text(thread)));
    add_candidate(&mut names, &mut values, "memory_mode", SqlValue::Text(owned("enabled")));
    add_candidate(&mut names, &mut values, "model", opt_text_value(&thread.model));
    add_candidate(&mut names, &mut values, "reasoning_effort", opt_text_value(&thread.reasoning_effort));
    add_candidate(&mut names, &mut values, "created_at_ms", SqlValue::Integer(millis_of(thread.created_at)));
    add_candidate(&mut names, &mut values, "updated_at_ms", SqlValue::Integer(millis_of(thread.updated_at)));
    add_candidate(&mut names, &mut values, "recency_at", SqlValue::Integer(thread.updated_at));
    add_candidate(&mut names, &mut values, "recency_at_ms", SqlValue::Integer(millis_of(thread.updated_at)));
    assert(names@.len() == cands.len());
    assert forall|k: int| 0 <= k < names@.len() implies names@[k]@ == cands[k].0 by {}
    assert forall|k: int| 0 <= k < names@.len() implies value_view(#[trigger] values@[k])
        == cands[k].1 by {}
    let (chosen_names, params) = choose_present(&names, values, columns, Ghost(cands));
    let ghost chosen = present(cands, columns@);
    proof {
        lemma_chosen_views(chosen_names@, params@, chosen);
        lemma_present_len(cands, columns@);
    }
    let mut sql = lit("INSERT INTO threads (");
    let list = name_list_exec(&chosen_names);
    extend_chars(&mut sql, list.as_slice());
    push_str_chars(&mut sql, ") VALUES (");
    let marks = placeholders_exec(params.len());
    extend_chars(&mut sql, marks.as_slice());
    push_str_chars(&mut sql, ")");
    SqlStatement { sql: string_of(sql.as_slice()), params }
}

/// The statement that moves a thread to the top of the recency order:
/// every column of [`promote_candidates`] that the table has.
pub fn promote_statement(columns: &[String], thread_id: &str, updated_at: i64) -> (st: SqlStatement)
    ensures
        update_statement_spec(
            present(promote_candidates(updated_at), columns@),
            thread_id@,
            st.sql@,
            values_view(st.params@),
        ),
{
    let ghost cands = promote_candidates(updated_at);
    let mut names: Vec<Vec<char>> = Vec::new();
    let mut values: Vec<SqlValue> = Vec::new();
    add_candidate(&mut names, &mut values, "updated_at", SqlValue::Integer(updated_at));
    add_candidate(&mut names, &mut values, "updated_at_ms", SqlValue::Integer(millis_of(updated_at)));
    add_candidate(&mut names, &mut values, "recency_at", SqlValue::Integer(updated_at));
    add_candidate(&mut names, &mut values, "recency_at_ms", SqlValue::Integer(millis_of(updated_at)));
    assert(names@.len() == cands.len());
    assert forall|k: int| 0 <= k < names@.len() implies names@[k]@ == cands[k].0 by {}
    assert forall|k: int| 0 <= k < names@.len() implies value_view(#[trigger] values@[k])
        == cands[k].1 by {}
    let (chosen_names, mut params) = choose_present(&names, values, columns, Ghost(cands));
    let ghost chosen = present(cands, columns@);
    proof {
        lemma_chosen_views(chosen_names@, params@, chosen);
        lemma_present_len(cands, columns@);
    }
    let mut sql = lit("UPDATE threads SET ");
    let a = assignments_exec(&chosen_names);
    extend_chars(&mut sql, a.as_slice());
    push_str_chars(&mut sql, " WHERE id=?");
    push_decimal(&mut sql, params.len() + 1);
    let ghost before = params@;
    params.push(SqlValue::Text(owned(thread_id)));
    assert(values_view(params@) =~= values_view(before).push(SqlValueView::Text(thread_id@)));
    SqlStatement { sql: string_of(sql.as_slice()), params }
}

/// The columns that every registered thread needs.
pub open spec fn required_columns() -> Seq<Seq<char>> {
    seq![
        "id"@,
        "rollout_path"@,
        "created_at"@,
        "updated_at"@,
        "source"@,
        "model_provider"@,
        "cwd"@,
        "title"@,
        "sandbox_policy"@,
        "approval_mode"@,
    ]
}

/// The first required column that the table lacks, if any.
pub fn check_required_columns(columns: &[String]) -> (r: Result<(), SchemaError>)
    ensures
        match r {
            Ok(()) => forall|k: int|
                0 <= k < required_columns().len() ==> has_string(
                    columns@,
                    #[trigger] required_columns()[k],
                ),
            Err(SchemaError::MissingColumn(name)) => exists|k: int|
                0 <= k < required_columns().len() && required_columns()[k] == name@ && !has_string(
                    columns@,
                    name@,
                ) && forall|m: int|
                    0 <= m < k ==> has_string(columns@, #[trigger] required_columns()[m]),
        },
{
    let required = [
        "id",
        "rollout_path",
        "created_at",
        "updated_at",
        "source",
        "model_provider",
        "cwd",
        "title",
        "sandbox_policy",
        "approval_mode",
    ];
    let mut i: usize = 0;
    while i < 10
        invariant
            i <= 10,
            forall|k: int| 0 <= k < 10 ==> (#[trigger] required@[k])@ == required_columns()[k],
            forall|m: int| 0 <= m < i ==> has_string(columns@, #[trigger] required_columns()[m]),
        decreases 10 - i,
    {
        if !crate::merge::contains_string(columns, required[i]) {
            return Err(SchemaError::MissingColumn(owned(required[i])));
        }
        i += 1;
    }
    Ok(())
}

// ---------------------------------------------------------------------------
// Checking an imported thread

/// The column that holds a thread's sidebar preview: `preview`, or
/// `first_user_message` in schemas without it.
pub open spec fn preview_column_spec(columns: Seq<String>) -> Seq<char> {
    if crate::merge::has_string(columns, "preview"@) {
        "preview"@
    } else {
        "first_user_message"@
    }
}

/// The query that reads what Codex needs to show a thread: its folder, its
/// rollout and its preview.
pub fn visible_thread_query(columns: &[String]) -> (sql: String)
    ensures
        sql@ == "SELECT cwd, rollout_path, "@ + preview_column_spec(columns@)
            + " FROM threads WHERE id = ?1"@,
{
    let mut out: Vec<char> = Vec::new();
    crate::text::extend_str(&mut out, "SELECT cwd, rollout_path, ");
    if crate::merge::contains_string(columns, "preview") {
        crate::text::extend_str(&mut out, "preview");
    } else {
        crate::text::extend_str(&mut out, "first_user_message");
    }
    crate::text::extend_str(&mut out, " FROM threads WHERE id = ?1");
    crate::text::string_of(out.as_slice())
}

/// Why Codex would not show an imported thread.
#[derive(Debug, Clone, PartialEq, Eq)]
pub enum VisibilityError {
    /// The state database has no row for the thread.
    Missing(String),
    /// The row names another folder: thread, folder, expected folder.
    WrongCwd(String, String, String),
    /// The row's rollout is not a file: thread, rollout path.
    MissingRollout(String, String),
    /// The row's preview is blank, so Codex hides the thread.
    EmptyPreview(String),
}

impl VisibilityError {
    /// The message shown to the user.
    pub fn message(&self) -> (s: String)
        ensures
            s@ == match self {
                VisibilityError::Missing(id) => "thread "@ + id@ + " is missing from the state database"@,
                VisibilityError::WrongCwd(id, cwd, expected) => "thread "@ + id@ + " has cwd "@ + cwd@
                    + ", expected "@ + expected@,
                VisibilityError::MissingRollout(id, path) => "thread "@ + id@ + " rollout is missing: "@
                    + path@,
                VisibilityError::EmptyPreview(id) => "thread "@ + id@
                    + " has an empty preview and will be hidden by Codex"@,
            },
    {
        let mut out = String::new();
        match self {
            VisibilityError::Missing(id) => {
                crate::text::string_push_str(&mut out, "thread ");
                crate::text::string_push_str(&mut out, id.as_str());
                crate::text::string_push_str(&mut out, " is missing from the state database");
            },
            VisibilityError::WrongCwd(id, cwd, expected) => {
                crate::text::string_push_str(&mut out, "thread ");
                crate::text::string_push_str(&mut out, id.as_str());
                crate::text::string_push_str(&mut out, " has cwd ");
                crate::text::string_push_str(&mut out, cwd.as_str());
                crate::text::string_push_str(&mut out, ", expected ");
                crate::text::string_push_str(&mut out, expected.as_str());
            },
            VisibilityError::MissingRollout(id, path) => {
                crate::text::string_push_str(&mut out, "thread ");
                crate::text::string_push_str(&mut out, id.as_str());
                crate::text::string_push_str(&mut out, " rollout is missing: ");
                crate::text::string_push_str(&mut out, path.as_str());
            },
            VisibilityError::EmptyPreview(id) => {
                crate::text::string_push_str(&mut out, "thread ");
                crate::text::string_push_str(&mut out, id.as_str());
                crate::text::string_push_str(
                    &mut out,
                    " has an empty preview and will be hidden by Codex",
                );
            },
        }
        out
    }
}

/// The checks of a visible thread that follow its folder: the rollout is a
/// file, and the preview is not blank.
pub open spec fn checked_after_cwd(
    r: Result<(), VisibilityError>,
    thread_id: Seq<char>,
    rollout: Seq<char>,
    preview: Seq<char>,
    rollout_is_file: bool,
) -> bool {
    if !rollout_is_file {
        r matches Err(VisibilityError::MissingRollout(id, p)) && id@ == thread_id && p@ == rollout
    } else if crate::text::trim(preview).len() == 0 {
        r matches Err(VisibilityError::EmptyPreview(id)) && id@ == thread_id
    } else {
        r is Ok
    }
}

/// What the visibility check of a thread gives: a missing row, then a row
/// whose folder is not the expected one (`cwd_matches` tells whether it is),
/// then the checks that follow the folder.
pub open spec fn visible_outcome(
    r: Result<(), VisibilityError>,
    thread_id: Seq<char>,
    row: Option<(String, String, String)>,
    expected_cwd: Seq<char>,
    cwd_matches: bool,
    rollout_is_file: bool,
) -> bool {
    match row {
        None => r matches Err(VisibilityError::Missing(id)) && id@ == thread_id,
        Some((cwd, rollout, preview)) => if !cwd_matches {
            r matches Err(VisibilityError::WrongCwd(id, c, e)) && id@ == thread_id && c@ == cwd@
                && e@ == expected_cwd
        } else {
            checked_after_cwd(r, thread_id, rollout@, preview@, rollout_is_file)
        },
    }
}

/// Checks that Codex will show an imported thread, given whether the row's
/// folder is the expected one (`cwd_matches`): the state database has its
/// row (`row`: folder, rollout path, preview), the row names the expected
/// folder, its rollout is a file (`rollout_is_file`), and its preview is not
/// blank; the checks in that order.
pub fn visibility_verdict(
    thread_id: &str,
    row: Option<(String, String, String)>,
    expected_cwd: &str,
    cwd_matches: bool,
    rollout_is_file: bool,
) -> (r: Result<(), VisibilityError>)
    ensures
        visible_outcome(r, thread_id@, row, expected_cwd@, cwd_matches, rollout_is_file),
{
    let (cwd, rollout, preview) = match row {
        None => {
            return Err(VisibilityError::Missing(thread_id.to_owned()));
        },
        Some(row) => row,
    };
    if !cwd_matches {
        return Err(VisibilityError::WrongCwd(thread_id.to_owned(), cwd, expected_cwd.to_owned()));
    }
    if !rollout_is_file {
        return Err(VisibilityError::MissingRollout(thread_id.to_owned(), rollout));
    }
    if crate::text::is_blank(preview.as_str()) {
        return Err(VisibilityError::EmptyPreview(thread_id.to_owned()));
    }
    Ok(())
}

/// Checks that Codex will show an imported thread (see
/// [`visibility_verdict`]), the row's folder compared with the expected one
/// as a path (see `same_path`): a folder with the expected text always
/// matches; whether another text does depends on the platform's path
/// syntax.
pub fn validate_visible_thread(
    thread_id: &str,
    row: Option<(String, String, String)>,
    expected_cwd: &str,
    rollout_is_file: bool,
) -> (r: Result<(), VisibilityError>)
    ensures
        exists|m: bool|
            (match row {
                Some((cwd, _, _)) => cwd@ == expected_cwd@ ==> m,
                None => true,
            }) && visible_outcome(r, thread_id@, row, expected_cwd@, m, rollout_is_file),
{
    let cwd_matches = match &row {
        Some((cwd, _, _)) => crate::path_mapper::same_path(cwd.as_str(), expected_cwd),
        None => false,
    };
    visibility_verdict(thread_id, row, expected_cwd, cwd_matches, rollout_is_file)
}

/// Checks the result of SQLite's integrity check: `ok`, or an error that
/// carries what it returned.
pub fn check_integrity(result: &str) -> (r: Result<(), String>)
    ensures
        match r {
            Ok(()) => result@ == "ok"@,
            Err(message) => result@ != "ok"@ && message@ == "SQLite integrity check returned "@
                + result@,
        },
{
    if crate::text::str_equal(result, "ok") {
        Ok(())
    } else {
        let mut out = String::new();
        crate::text::string_push_str(&mut out, "SQLite integrity check returned ");
        crate::text::string_push_str(&mut out, result);
        Err(out)
    }
}

} // verus!
