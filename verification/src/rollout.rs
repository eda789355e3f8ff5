//! Rollout files: JSON Lines whose `session_meta` and `turn_context` records
//! carry the project folder (`payload.cwd`) of a thread.
use crate::json::{
    json_compact, json_compact_at, json_kind, json_kind_at, json_set, json_set_at, json_string,
    json_string_literal, json_text, json_text_at, opt_chars, JsonKind,
};
use crate::sqlite_adapter::decimal;
use crate::text::{str_equal, string_of};
use vstd::prelude::*;

verus! {

/// Why a rollout could not be rewritten or validated.
#[derive(Debug, Clone, PartialEq, Eq)]
pub enum RolloutError {
    /// The line with this 1-based number is not JSON.
    InvalidLine(usize),
    /// The line with this 1-based number could not be written back.
    Unwritable(usize),
    /// A cwd record names another folder than the expected one.
    UnexpectedCwd(String),
    /// No `session_meta` record names the expected folder.
    NoSessionMeta,
}

/// The message of a rollout error, for the rollout at `path` that should
/// name the folder `cwd`.
pub open spec fn rollout_message(e: RolloutError, path: Seq<char>, cwd: Seq<char>) -> Seq<char> {
    match e {
        RolloutError::InvalidLine(n) => "parse rollout line "@ + decimal(n as nat),
        RolloutError::Unwritable(n) => "cannot write rollout line "@ + decimal(n as nat),
        RolloutError::UnexpectedCwd(actual) => path + " contains cwd "@ + actual@ + ", expected "@ + cwd,
        RolloutError::NoSessionMeta => path + " has no mapped session_meta cwd"@,
    }
}

impl RolloutError {
    /// The message shown to the user, for the rollout at `path` that should
    /// name the folder `cwd`.
    pub fn message(&self, path: &str, cwd: &str) -> (s: String)
        ensures
            s@ == rollout_message(*self, path@, cwd@),
    {
        let mut out: Vec<char> = Vec::new();
        match self {
            RolloutError::InvalidLine(n) => {
                crate::text::extend_str(&mut out, "parse rollout line ");
                crate::sqlite_adapter::push_decimal(&mut out, *n);
            },
            RolloutError::Unwritable(n) => {
                crate::text::extend_str(&mut out, "cannot write rollout line ");
                crate::sqlite_adapter::push_decimal(&mut out, *n);
            },
            RolloutError::UnexpectedCwd(actual) => {
                crate::text::extend_str(&mut out, path);
                crate::text::extend_str(&mut out, " contains cwd ");
                crate::text::extend_str(&mut out, actual.as_str());
                crate::text::extend_str(&mut out, ", expected ");
                crate::text::extend_str(&mut out, cwd);
            },
            RolloutError::NoSessionMeta => {
                crate::text::extend_str(&mut out, path);
                crate::text::extend_str(&mut out, " has no mapped session_meta cwd");
            },
        }
        assert(out@ =~= rollout_message(*self, path@, cwd@));
        crate::text::string_of(out.as_slice())
    }
}

// ---------------------------------------------------------------------------
// Lines

/// `s` cut at every `sep` byte (`<[u8]>::split`): always at least one piece.
pub open spec fn split_on(s: Seq<u8>, sep: u8) -> Seq<Seq<u8>>
    decreases s.len(),
{
    if s.len() == 0 {
        seq![seq![]]
    } else {
        let r = split_on(s.drop_last(), sep);
        if s.last() == sep {
            r.push(seq![])
        } else {
            r.update(r.len() - 1, r.last().push(s.last()))
        }
    }
}

pub proof fn lemma_split_on_nonempty(s: Seq<u8>, sep: u8)
    ensures
        split_on(s, sep).len() >= 1,
    decreases s.len(),
{
    if s.len() > 0 {
        lemma_split_on_nonempty(s.drop_last(), sep);
    }
}

pub open spec fn bytes_view(v: Seq<Vec<u8>>) -> Seq<Seq<u8>> {
    v.map_values(|b: Vec<u8>| b@)
}

/// The pieces of `content` between `sep` bytes.
pub fn split_bytes(content: &[u8], sep: u8) -> (lines: Vec<Vec<u8>>)
    ensures
        bytes_view(lines@) == split_on(content@, sep),
{
    let mut lines: Vec<Vec<u8>> = Vec::new();
    let mut cur: Vec<u8> = Vec::new();
    let mut i: usize = 0;
    assert(content@.take(0) =~= seq![]);
    assert(bytes_view(lines@).push(cur@) =~= split_on(content@.take(0), sep));
    while i < content.len()
        invariant
            i <= content@.len(),
            bytes_view(lines@).push(cur@) == split_on(content@.take(i as int), sep),
        decreases content@.len() - i,
    {
        let ghost t = content@.take(i + 1);
        assert(t.drop_last() =~= content@.take(i as int));
        proof {
            lemma_split_on_nonempty(content@.take(i as int), sep);
        }
        if content[i] == sep {
            let done = cur;
            lines.push(done);
            cur = Vec::new();
            assert(bytes_view(lines@).push(cur@) =~= split_on(t, sep));
        } else {
            let ghost before = cur@;
            cur.push(content[i]);
            assert(bytes_view(lines@).push(cur@) =~= split_on(t, sep));
        }
        i += 1;
    }
    assert(content@.take(content@.len() as int) =~= content@);
    lines.push(cur);
    lines
}

// ---------------------------------------------------------------------------
// Line classification

pub open spec fn session_meta() -> Seq<char> {
    "session_meta"@
}

pub open spec fn turn_context() -> Seq<char> {
    "turn_context"@
}

/// A record that carries the project folder of the thread.
pub open spec fn is_cwd_record(kind: Option<Seq<char>>) -> bool {
    kind == Some(session_meta()) || kind == Some(turn_context())
}

/// Whether a line of this `type` carries the project folder.
pub fn is_cwd_line_type(line_type: &Option<String>) -> (r: bool)
    ensures
        r == is_cwd_record(opt_chars(*line_type)),
{
    match line_type {
        Some(t) => str_equal(t.as_str(), "session_meta") || str_equal(t.as_str(), "turn_context"),
        None => false,
    }
}

/// Whether a line must be rewritten to carry `cwd`: it is a cwd record, its
/// payload is an object, and the payload's cwd is not already `cwd`.
pub open spec fn needs_rewrite_spec(
    kind: Option<Seq<char>>,
    payload_kind: Option<JsonKind>,
    current: Option<Seq<char>>,
    cwd: Seq<char>,
) -> bool {
    is_cwd_record(kind) && payload_kind == Some(JsonKind::Object) && current != Some(cwd)
}

/// Whether a line with this `type`, payload kind and payload cwd must be
/// rewritten to carry `cwd`.
pub fn needs_cwd_rewrite(
    line_type: &Option<String>,
    payload_kind: Option<JsonKind>,
    current_cwd: &Option<String>,
    cwd: &str,
) -> (r: bool)
    ensures
        r == needs_rewrite_spec(opt_chars(*line_type), payload_kind, opt_chars(*current_cwd), cwd@),
{
    if !is_cwd_line_type(line_type) {
        return false;
    }
    if payload_kind != Some(JsonKind::Object) {
        return false;
    }
    match current_cwd {
        Some(c) => !str_equal(c.as_str(), cwd),
        None => true,
    }
}

// ---------------------------------------------------------------------------
// Rewriting

/// What rewriting does to one non-empty line.
pub enum LineEdit {
    Invalid,
    Unwritable,
    Rewritten(Seq<u8>),
    Kept(Seq<u8>),
}

pub open spec fn flat_compact(line: Seq<u8>) -> Option<Seq<u8>> {
    match json_compact_at(line, ""@) {
        Some(Some(b)) => Some(b),
        _ => None,
    }
}

/// A line rewritten to carry `cwd`: an invalid line is refused; a cwd record
/// whose payload names another folder gets `cwd` in its payload; any other
/// line is written back in compact form.
pub open spec fn rewrite_line_spec(line: Seq<u8>, cwd: Seq<char>) -> LineEdit {
    match json_text_at(line, "/type"@) {
        None => LineEdit::Invalid,
        Some(kind) => {
            let payload_kind = match json_kind_at(line, "/payload"@) {
                Some(k) => k,
                None => None,
            };
            let current = match json_text_at(line, "/payload/cwd"@) {
                Some(c) => c,
                None => None,
            };
            if needs_rewrite_spec(kind, payload_kind, current, cwd) {
                match json_set_at(line, "/payload"@, "cwd"@, json_string_literal(cwd)) {
                    Some(b) => LineEdit::Rewritten(b),
                    None => LineEdit::Unwritable,
                }
            } else {
                match flat_compact(line) {
                    Some(b) => LineEdit::Kept(b),
                    None => LineEdit::Unwritable,
                }
            }
        },
    }
}

/// The rewritten content and the number of rewritten records, or the first
/// failing line; empty lines are dropped and every other line ends in `\n`.
pub open spec fn rewrite_lines_spec(lines: Seq<Seq<u8>>, cwd: Seq<char>) -> Result<
    (Seq<u8>, nat),
    RolloutError,
>
    decreases lines.len(),
{
    if lines.len() == 0 {
        Ok((seq![], 0))
    } else {
        match rewrite_lines_spec(lines.drop_last(), cwd) {
            Err(e) => Err(e),
            Ok((out, changed)) => {
                let line = lines.last();
                let number = lines.len() as usize;
                if line.len() == 0 {
                    Ok((out, changed))
                } else {
                    match rewrite_line_spec(line, cwd) {
                        LineEdit::Invalid => Err(RolloutError::InvalidLine(number)),
                        LineEdit::Unwritable => Err(RolloutError::Unwritable(number)),
                        LineEdit::Rewritten(b) => Ok((out + b + seq![10u8], changed + 1)),
                        LineEdit::Kept(b) => Ok((out + b + seq![10u8], changed)),
                    }
                }
            },
        }
    }
}

proof fn lemma_rewrite_err_prefix(lines: Seq<Seq<u8>>, cwd: Seq<char>, k: int)
    requires
        0 <= k <= lines.len(),
        rewrite_lines_spec(lines.take(k), cwd) is Err,
    ensures
        rewrite_lines_spec(lines, cwd) == rewrite_lines_spec(lines.take(k), cwd),
    decreases lines.len(),
{
    if k < lines.len() {
        assert(lines.drop_last().take(k) =~= lines.take(k));
        lemma_rewrite_err_prefix(lines.drop_last(), cwd, k);
    } else {
        assert(lines.take(k) =~= lines);
    }
}

proof fn lemma_canonical_none_prefix(lines: Seq<Seq<u8>>, k: int)
    requires
        0 <= k <= lines.len(),
        canonical_lines_spec(lines.take(k)) is None,
    ensures
        canonical_lines_spec(lines) is None,
    decreases lines.len(),
{
    if k < lines.len() {
        assert(lines.drop_last().take(k) =~= lines.take(k));
        lemma_canonical_none_prefix(lines.drop_last(), k);
    } else {
        assert(lines.take(k) =~= lines);
    }
}

proof fn lemma_validate_err_prefix(lines: Seq<Seq<u8>>, expected: Seq<char>, k: int)
    requires
        0 <= k <= lines.len(),
        validate_lines_spec(lines.take(k), expected) is Err,
    ensures
        validate_lines_spec(lines, expected) == validate_lines_spec(lines.take(k), expected),
    decreases lines.len(),
{
    if k < lines.len() {
        assert(lines.drop_last().take(k) =~= lines.take(k));
        lemma_validate_err_prefix(lines.drop_last(), expected, k);
    } else {
        assert(lines.take(k) =~= lines);
    }
}

pub(crate) fn extend_bytes(out: &mut Vec<u8>, more: &[u8])
    ensures
        final(out)@ == old(out)@ + more@,
{
    let mut i: usize = 0;
    while i < more.len()
        invariant
            i <= more@.len(),
            out@ == old(out)@ + more@.take(i as int),
        decreases more@.len() - i,
    {
        out.push(more[i]);
        assert(more@.take(i + 1) =~= more@.take(i as int).push(more@[i as int]));
        i += 1;
    }
    assert(more@.take(more@.len() as int) =~= more@);
}

/// Rewrites the cwd records of a rollout to carry `cwd` and counts them; the
/// other records are kept (in compact form).
pub fn rewrite_cwd_bytes(content: &[u8], cwd: &str) -> (result: Result<(Vec<u8>, usize), RolloutError>)
    ensures
        match result {
            Ok((out, changed)) => rewrite_lines_spec(split_on(content@, 10u8), cwd@) == Ok::<
                (Seq<u8>, nat),
                RolloutError,
            >((out@, changed as nat)),
            Err(e) => rewrite_lines_spec(split_on(content@, 10u8), cwd@) == Err::<
                (Seq<u8>, nat),
                RolloutError,
            >(e),
        },
{
    let lines = split_bytes(content, 10u8);
    let ghost all = bytes_view(lines@);
    let cwd_literal = json_string(cwd);
    let mut output: Vec<u8> = Vec::new();
    let mut changed: usize = 0;
    let mut i: usize = 0;
    while i < lines.len()
        invariant
            i <= lines@.len(),
            all == bytes_view(lines@),
            all == split_on(content@, 10u8),
            cwd_literal@ == json_string_literal(cwd@),
            changed <= i,
            rewrite_lines_spec(all.take(i as int), cwd@) == Ok::<(Seq<u8>, nat), RolloutError>(
                (output@, changed as nat),
            ),
        decreases lines@.len() - i,
    {
        let line = &lines[i];
        let ghost t = all.take(i + 1);
        assert(t.drop_last() =~= all.take(i as int));
        assert(t.last() == line@);
        if line.len() == 0 {
            i += 1;
            continue;
        }
        let kind = json_text(line.as_slice(), "/type");
        let kind = match kind {
            None => {
                proof {
                    lemma_rewrite_err_prefix(all, cwd@, i + 1);
                }
                return Err(RolloutError::InvalidLine(i + 1));
            },
            Some(k) => k,
        };
        let payload_kind = match json_kind(line.as_slice(), "/payload") {
            Some(k) => k,
            None => None,
        };
        let current = match json_text(line.as_slice(), "/payload/cwd") {
            Some(c) => c,
            None => None,
        };
        let ghost before = output@;
        if needs_cwd_rewrite(&kind, payload_kind, &current, cwd) {
            match json_set(line.as_slice(), "/payload", "cwd", cwd_literal.as_slice()) {
                Some(b) => {
                    extend_bytes(&mut output, b.as_slice());
                    output.push(10u8);
                    assert(output@ =~= before + b@ + seq![10u8]);
                    changed += 1;
                },
                None => {
                    proof {
                        lemma_rewrite_err_prefix(all, cwd@, i + 1);
                    }
                    return Err(RolloutError::Unwritable(i + 1));
                },
            }
        } else {
            match json_compact(line.as_slice(), "") {
                Some(Some(b)) => {
                    extend_bytes(&mut output, b.as_slice());
                    output.push(10u8);
                    assert(output@ =~= before + b@ + seq![10u8]);
                },
                _ => {
                    proof {
                        lemma_rewrite_err_prefix(all, cwd@, i + 1);
                    }
                    return Err(RolloutError::Unwritable(i + 1));
                },
            }
        }
        i += 1;
    }
    assert(all.take(lines@.len() as int) =~= all);
    Ok((output, changed))
}

// ---------------------------------------------------------------------------
// Canonical form

pub open spec fn mapped_cwd_marker() -> Seq<char> {
    "<mapped-cwd>"@
}

/// A line in canonical form: a cwd record whose payload object holds a cwd
/// gets the placeholder `<mapped-cwd>` in its place; any other line is kept
/// in compact form. `None` when the line is not JSON or cannot be written.
pub open spec fn canonical_line_spec(line: Seq<u8>) -> Option<Seq<u8>> {
    match json_text_at(line, "/type"@) {
        None => None,
        Some(kind) => {
            let payload_object = json_kind_at(line, "/payload"@) == Some(Some(JsonKind::Object));
            let has_cwd = json_kind_at(line, "/payload/cwd"@) matches Some(Some(_));
            if is_cwd_record(kind) && payload_object && has_cwd {
                json_set_at(line, "/payload"@, "cwd"@, json_string_literal(mapped_cwd_marker()))
            } else {
                flat_compact(line)
            }
        },
    }
}

pub open spec fn canonical_lines_spec(lines: Seq<Seq<u8>>) -> Option<Seq<u8>>
    decreases lines.len(),
{
    if lines.len() == 0 {
        Some(seq![])
    } else {
        match canonical_lines_spec(lines.drop_last()) {
            None => None,
            Some(out) => {
                let line = lines.last();
                if line.len() == 0 {
                    Some(out)
                } else {
                    match canonical_line_spec(line) {
                        None => None,
                        Some(b) => Some(out + b + seq![10u8]),
                    }
                }
            },
        }
    }
}

/// The content of a rollout with every recorded cwd replaced by one
/// placeholder, so that two copies of a thread that differ only in the
/// folder they were mapped to compare equal.
pub open spec fn canonical_spec(content: Seq<u8>) -> Option<Seq<u8>> {
    canonical_lines_spec(split_on(content, 10u8))
}

/// The canonical form of a rollout (see [`canonical_spec`]); `None` when a
/// line is not JSON.
pub fn canonicalize_cwd(content: &[u8]) -> (out: Option<Vec<u8>>)
    ensures
        match out {
            Some(b) => canonical_spec(content@) == Some(b@),
            None => canonical_spec(content@) is None,
        },
{
    let lines = split_bytes(content, 10u8);
    let ghost all = bytes_view(lines@);
    let marker = json_string("<mapped-cwd>");
    let mut output: Vec<u8> = Vec::new();
    let mut i: usize = 0;
    while i < lines.len()
        invariant
            i <= lines@.len(),
            all == bytes_view(lines@),
            all == split_on(content@, 10u8),
            marker@ == json_string_literal(mapped_cwd_marker()),
            canonical_lines_spec(all.take(i as int)) == Some(output@),
        decreases lines@.len() - i,
    {
        let line = &lines[i];
        let ghost t = all.take(i + 1);
        assert(t.drop_last() =~= all.take(i as int));
        assert(t.last() == line@);
        if line.len() == 0 {
            i += 1;
            continue;
        }
        let kind = match json_text(line.as_slice(), "/type") {
            None => {
                proof {
                    lemma_canonical_none_prefix(all, i + 1);
                }
                return None;
            },
            Some(k) => k,
        };
        let payload_object = json_kind(line.as_slice(), "/payload") == Some(
            Some(JsonKind::Object),
        );
        let has_cwd = match json_kind(line.as_slice(), "/payload/cwd") {
            Some(Some(_)) => true,
            _ => false,
        };
        let written = if is_cwd_line_type(&kind) && payload_object && has_cwd {
            json_set(line.as_slice(), "/payload", "cwd", marker.as_slice())
        } else {
            match json_compact(line.as_slice(), "") {
                Some(Some(b)) => Some(b),
                _ => None,
            }
        };
        match written {
            None => {
                proof {
                    lemma_canonical_none_prefix(all, i + 1);
                }
                return None;
            },
            Some(b) => {
                extend_bytes(&mut output, b.as_slice());
                output.push(10u8);
            },
        }
        i += 1;
    }
    assert(all.take(lines@.len() as int) =~= all);
    Some(output)
}

// ---------------------------------------------------------------------------
// Validation

/// A problem found when checking the cwd records of a rollout.
pub enum CwdProblem {
    InvalidLine(usize),
    Unexpected(Seq<char>),
    NoSessionMeta,
}

/// The number of `session_meta` records that name `expected`, or the first
/// problem: a line that is not JSON, or a cwd record that names a folder
/// other than `expected`.
pub open spec fn validate_lines_spec(lines: Seq<Seq<u8>>, expected: Seq<char>) -> Result<
    nat,
    CwdProblem,
>
    decreases lines.len(),
{
    if lines.len() == 0 {
        Ok(0)
    } else {
        match validate_lines_spec(lines.drop_last(), expected) {
            Err(e) => Err(e),
            Ok(count) => {
                let line = lines.last();
                let number = lines.len() as usize;
                if line.len() == 0 {
                    Ok(count)
                } else {
                    match json_text_at(line, "/type"@) {
                        None => Err(CwdProblem::InvalidLine(number)),
                        Some(kind) => if !is_cwd_record(kind) {
                            Ok(count)
                        } else {
                            match json_text_at(line, "/payload/cwd"@) {
                                Some(Some(actual)) => if actual != expected {
                                    Err(CwdProblem::Unexpected(actual))
                                } else if kind == Some(session_meta()) {
                                    Ok(count + 1)
                                } else {
                                    Ok(count)
                                },
                                _ => Ok(count),
                            }
                        },
                    }
                }
            },
        }
    }
}

/// Every cwd record of a rollout names `expected`, and at least one
/// `session_meta` record does.
pub open spec fn validate_spec(content: Seq<u8>, expected: Seq<char>) -> Result<(), CwdProblem> {
    match validate_lines_spec(split_on(content, 10u8), expected) {
        Err(e) => Err(e),
        Ok(count) => if count == 0 {
            Err(CwdProblem::NoSessionMeta)
        } else {
            Ok(())
        },
    }
}

pub open spec fn problem_of(e: RolloutError) -> CwdProblem {
    match e {
        RolloutError::InvalidLine(n) => CwdProblem::InvalidLine(n),
        RolloutError::UnexpectedCwd(a) => CwdProblem::Unexpected(a@),
        _ => CwdProblem::NoSessionMeta,
    }
}

/// Checks that every cwd record of a rollout names `expected` and that at
/// least one `session_meta` record does (see [`validate_spec`]).
pub fn validate_cwd_content(content: &[u8], expected: &str) -> (result: Result<(), RolloutError>)
    ensures
        match result {
            Ok(()) => validate_spec(content@, expected@) is Ok,
            Err(e) => e !is Unwritable && validate_spec(content@, expected@) == Err::<(), CwdProblem>(
                problem_of(e),
            ),
        },
{
    let lines = split_bytes(content, 10u8);
    let ghost all = bytes_view(lines@);
    let mut count: usize = 0;
    let mut i: usize = 0;
    while i < lines.len()
        invariant
            i <= lines@.len(),
            all == bytes_view(lines@),
            all == split_on(content@, 10u8),
            count <= i,
            validate_lines_spec(all.take(i as int), expected@) == Ok::<nat, CwdProblem>(
                count as nat,
            ),
        decreases lines@.len() - i,
    {
        let line = &lines[i];
        let ghost t = all.take(i + 1);
        assert(t.drop_last() =~= all.take(i as int));
        assert(t.last() == line@);
        if line.len() == 0 {
            i += 1;
            continue;
        }
        let kind = match json_text(line.as_slice(), "/type") {
            None => {
                proof {
                    lemma_validate_err_prefix(all, expected@, i + 1);
                }
                return Err(RolloutError::InvalidLine(i + 1));
            },
            Some(k) => k,
        };
        if is_cwd_line_type(&kind) {
            match json_text(line.as_slice(), "/payload/cwd") {
                Some(Some(actual)) => {
                    if !str_equal(actual.as_str(), expected) {
                        proof {
                            lemma_validate_err_prefix(all, expected@, i + 1);
                        }
                        return Err(RolloutError::UnexpectedCwd(actual));
                    }
                    let is_meta = match &kind {
                        Some(k) => str_equal(k.as_str(), "session_meta"),
                        None => false,
                    };
                    if is_meta {
                        count += 1;
                    }
                },
                _ => {},
            }
        }
        i += 1;
    }
    assert(all.take(lines@.len() as int) =~= all);
    if count == 0 {
        return Err(RolloutError::NoSessionMeta);
    }
    Ok(())
}

/// A line that is empty or holds JSON.
pub open spec fn line_readable(line: Seq<u8>) -> bool {
    line.len() == 0 || json_text_at(line, "/type"@) is Some
}

/// A cwd record whose text `cwd` names a folder other than `expected`.
pub open spec fn cwd_mismatch(line: Seq<u8>, expected: Seq<char>) -> bool {
    &&& line.len() > 0
    &&& match json_text_at(line, "/type"@) {
        Some(kind) => is_cwd_record(kind) && match json_text_at(line, "/payload/cwd"@) {
            Some(Some(actual)) => actual != expected,
            _ => false,
        },
        None => false,
    }
}

/// A `session_meta` record whose `cwd` is `expected`.
pub open spec fn names_session(line: Seq<u8>, expected: Seq<char>) -> bool {
    &&& line.len() > 0
    &&& json_text_at(line, "/type"@) == Some(Some(session_meta()))
    &&& json_text_at(line, "/payload/cwd"@) == Some(Some(expected))
}

proof fn lemma_validate_lines(lines: Seq<Seq<u8>>, expected: Seq<char>)
    ensures
        (validate_lines_spec(lines, expected) is Ok) <==> (forall|i: int|
            0 <= i < lines.len() ==> line_readable(#[trigger] lines[i]) && !cwd_mismatch(
                lines[i],
                expected,
            )),
        validate_lines_spec(lines, expected) is Ok ==> (validate_lines_spec(lines, expected)->Ok_0
            > 0 <==> exists|i: int| 0 <= i < lines.len() && names_session(#[trigger] lines[i], expected)),
    decreases lines.len(),
{
    if lines.len() > 0 {
        let init = lines.drop_last();
        let line = lines.last();
        let last = lines.len() - 1;
        lemma_validate_lines(init, expected);
        assert(lines[last] == line);
        assert forall|i: int| 0 <= i < init.len() implies #[trigger] init[i] == lines[i] by {}
        reveal_strlit("session_meta");
        reveal_strlit("turn_context");
        if validate_lines_spec(init, expected) is Ok {
            assert(forall|i: int|
                0 <= i < init.len() ==> line_readable(#[trigger] init[i]) && !cwd_mismatch(
                    init[i],
                    expected,
                ));
            if validate_lines_spec(lines, expected) is Ok {
                assert forall|i: int| 0 <= i < lines.len() implies line_readable(
                    #[trigger] lines[i],
                ) && !cwd_mismatch(lines[i], expected) by {
                    if i < last {
                        assert(init[i] == lines[i]);
                    }
                }
                let n = validate_lines_spec(init, expected)->Ok_0;
                if names_session(line, expected) {
                    assert(validate_lines_spec(lines, expected)->Ok_0 > 0);
                } else if n > 0 {
                    let w = choose|w: int| 0 <= w < init.len() && names_session(#[trigger] init[w], expected);
                    assert(init[w] == lines[w]);
                } else {
                    assert(validate_lines_spec(lines, expected)->Ok_0 == 0);
                    assert forall|i: int| 0 <= i < lines.len() implies !names_session(
                        #[trigger] lines[i],
                        expected,
                    ) by {
                        if i < last {
                            assert(init[i] == lines[i]);
                        }
                    }
                }
            } else {
                assert(!(line_readable(lines[last]) && !cwd_mismatch(lines[last], expected)));
            }
        } else {
            let bad = choose|i: int|
                0 <= i < init.len() && !(line_readable(#[trigger] init[i]) && !cwd_mismatch(
                    init[i],
                    expected,
                ));
            assert(init[bad] == lines[bad]);
        }
    }
}

/// A rollout passes the cwd check exactly when every non-empty line holds
/// JSON, no cwd record names another folder, and some `session_meta` record
/// names the expected one.
pub proof fn law_validation_accepts_exactly(content: Seq<u8>, expected: Seq<char>)
    ensures
        validate_spec(content, expected) is Ok <==> {
            let lines = split_on(content, 10u8);
            &&& forall|i: int|
                0 <= i < lines.len() ==> line_readable(#[trigger] lines[i]) && !cwd_mismatch(
                    lines[i],
                    expected,
                )
            &&& exists|i: int| 0 <= i < lines.len() && names_session(#[trigger] lines[i], expected)
        },
{
    lemma_validate_lines(split_on(content, 10u8), expected);
}

/// A non-empty JSON line that is a cwd record whose payload is an object
/// and does not already name `cwd`.
pub open spec fn line_needs_rewrite(line: Seq<u8>, cwd: Seq<char>) -> bool {
    &&& line.len() > 0
    &&& match json_text_at(line, "/type"@) {
        Some(kind) => needs_rewrite_spec(
            kind,
            match json_kind_at(line, "/payload"@) {
                Some(k) => k,
                None => None,
            },
            match json_text_at(line, "/payload/cwd"@) {
                Some(c) => c,
                None => None,
            },
            cwd,
        ),
        None => false,
    }
}

/// How many of the lines need rewriting to carry `cwd`.
pub open spec fn rewrites_needed(lines: Seq<Seq<u8>>, cwd: Seq<char>) -> nat
    decreases lines.len(),
{
    if lines.len() == 0 {
        0
    } else {
        rewrites_needed(lines.drop_last(), cwd) + if line_needs_rewrite(lines.last(), cwd) {
            1nat
        } else {
            0nat
        }
    }
}

/// A non-empty line that cannot be rewritten: it is not JSON, or it could
/// not be written back.
pub open spec fn line_refused(line: Seq<u8>, cwd: Seq<char>) -> bool {
    line.len() > 0 && (rewrite_line_spec(line, cwd) is Invalid || rewrite_line_spec(
        line,
        cwd,
    ) is Unwritable)
}

proof fn lemma_rewrite_count(lines: Seq<Seq<u8>>, cwd: Seq<char>)
    ensures
        (rewrite_lines_spec(lines, cwd) is Ok) <==> (forall|i: int|
            0 <= i < lines.len() ==> !line_refused(#[trigger] lines[i], cwd)),
        rewrite_lines_spec(lines, cwd) is Ok ==> rewrite_lines_spec(lines, cwd)->Ok_0.1
            == rewrites_needed(lines, cwd),
    decreases lines.len(),
{
    if lines.len() > 0 {
        let init = lines.drop_last();
        let last = lines.len() - 1;
        lemma_rewrite_count(init, cwd);
        assert(lines[last] == lines.last());
        assert forall|i: int| 0 <= i < init.len() implies #[trigger] init[i] == lines[i] by {}
        if rewrite_lines_spec(init, cwd) is Ok {
            if rewrite_lines_spec(lines, cwd) is Ok {
                assert forall|i: int| 0 <= i < lines.len() implies !line_refused(
                    #[trigger] lines[i],
                    cwd,
                ) by {
                    if i < last {
                        assert(init[i] == lines[i]);
                    }
                }
            } else {
                assert(line_refused(lines[last], cwd));
            }
        } else {
            let bad = choose|i: int| 0 <= i < init.len() && line_refused(#[trigger] init[i], cwd);
            assert(init[bad] == lines[bad]);
        }
    }
}

/// Rewriting succeeds exactly when every non-empty line is JSON and can be
/// written back, and then counts the cwd records that did not yet name the
/// new folder.
pub proof fn law_rewrite_counts_changed_records(content: Seq<u8>, cwd: Seq<char>)
    ensures
        ({
            let lines = split_on(content, 10u8);
            &&& (rewrite_lines_spec(lines, cwd) is Ok) <==> (forall|i: int|
                0 <= i < lines.len() ==> !line_refused(#[trigger] lines[i], cwd))
            &&& rewrite_lines_spec(lines, cwd) is Ok ==> rewrite_lines_spec(lines, cwd)->Ok_0.1
                == rewrites_needed(lines, cwd)
        }),
{
    lemma_rewrite_count(split_on(content, 10u8), cwd);
}

/// Two lines that differ at most in the `cwd` of their payload: storing
/// any one cwd into both gives the same line.
pub open spec fn differ_only_in_cwd(a: Seq<u8>, b: Seq<u8>) -> bool {
    forall|v: Seq<u8>|
        #[trigger] json_set_at(a, "/payload"@, "cwd"@, v) == json_set_at(b, "/payload"@, "cwd"@, v)
}

/// A `session_meta` or `turn_context` record whose payload is an object
/// that holds a `cwd`.
pub open spec fn records_cwd(line: Seq<u8>) -> bool {
    &&& line.len() > 0
    &&& (json_text_at(line, "/type"@) == Some(Some("session_meta"@)) || json_text_at(
        line,
        "/type"@,
    ) == Some(Some("turn_context"@)))
    &&& json_kind_at(line, "/payload"@) == Some(Some(JsonKind::Object))
    &&& json_kind_at(line, "/payload/cwd"@) matches Some(Some(_))
}

/// Two rollouts, line by line, that are the same but for the cwd their cwd
/// records name: each pair of lines is equal, or two records of the same
/// type that both record a cwd and differ only in it.
pub open spec fn same_but_cwd(a: Seq<Seq<u8>>, b: Seq<Seq<u8>>) -> bool {
    &&& a.len() == b.len()
    &&& forall|i: int|
        0 <= i < a.len() ==> #[trigger] a[i] == b[i] || (records_cwd(a[i]) && records_cwd(b[i])
            && json_text_at(a[i], "/type"@) == json_text_at(b[i], "/type"@) && differ_only_in_cwd(
            a[i],
            b[i],
        ))
}

proof fn lemma_canonical_same_but_cwd(a: Seq<Seq<u8>>, b: Seq<Seq<u8>>)
    requires
        same_but_cwd(a, b),
    ensures
        canonical_lines_spec(a) == canonical_lines_spec(b),
    decreases a.len(),
{
    if a.len() > 0 {
        let last = a.len() - 1;
        assert(same_but_cwd(a.drop_last(), b.drop_last())) by {
            assert forall|i: int| 0 <= i < a.drop_last().len() implies #[trigger] a.drop_last()[i]
                == b.drop_last()[i] || (records_cwd(a.drop_last()[i]) && records_cwd(b.drop_last()[i])
                && json_text_at(a.drop_last()[i], "/type"@) == json_text_at(
                b.drop_last()[i],
                "/type"@,
            ) && differ_only_in_cwd(a.drop_last()[i], b.drop_last()[i])) by {
                assert(a.drop_last()[i] == a[i] && b.drop_last()[i] == b[i]);
            }
        }
        lemma_canonical_same_but_cwd(a.drop_last(), b.drop_last());
        if a[last] != b[last] {
            reveal_strlit("session_meta");
            reveal_strlit("turn_context");
            let marker = json_string_literal(mapped_cwd_marker());
            assert(json_set_at(a[last], "/payload"@, "cwd"@, marker) == json_set_at(
                b[last],
                "/payload"@,
                "cwd"@,
                marker,
            ));
            assert(canonical_line_spec(a[last]) == canonical_line_spec(b[last]));
        }
    }
}

/// The canonical form ignores every recorded cwd: two rollouts that are the
/// same but for the folders their `session_meta` and `turn_context`
/// records name have the same canonical form.
pub proof fn law_canonical_ignores_recorded_cwd(source: Seq<u8>, target: Seq<u8>)
    requires
        same_but_cwd(split_on(source, 10u8), split_on(target, 10u8)),
    ensures
        canonical_spec(source) == canonical_spec(target),
{
    lemma_canonical_same_but_cwd(split_on(source, 10u8), split_on(target, 10u8));
}

} // verus!
