//! Reading a thread's record out of its rollout, completed by the metadata
//! that the state database holds for it.
use crate::json::{json_len, json_len_at, json_text, json_text_at, opt_chars};
use crate::merge::has_string;
use crate::model::{ScannedThread, ThreadRecord};
use crate::path_mapper::{hex_encode, hex_lower, sha256_digest, sha256_of};
use crate::rollout::{bytes_view, split_bytes, split_on};
use crate::sqlite_adapter::{decimal, push_decimal};
use crate::order::{sort_ranked, sort_stable, Ranked};
use crate::text::{
    chars_of, copy_chars, ends_with, extend_chars, extend_str, is_white_space, seq_less,
    str_equal, str_less, string_of, sub_chars, white_space,
};
use vstd::prelude::*;
use vstd::utf8::valid_utf8;

verus! {

/// The metadata that the state database holds for a thread.
#[derive(Debug, Clone, Default)]
pub struct DbMetadata {
    pub title: String,
    pub created_at: i64,
    pub updated_at: i64,
    pub cwd: String,
    pub source: String,
    pub thread_source: Option<String>,
    pub model_provider: String,
    pub cli_version: String,
    pub first_user_message: String,
    pub sandbox_policy: Option<String>,
    pub approval_mode: Option<String>,
    pub model: Option<String>,
    pub reasoning_effort: Option<String>,
}

/// Why a rollout could not be read.
#[derive(Debug, Clone, PartialEq, Eq)]
pub enum ScanError {
    /// The rollout file is empty.
    EmptyRollout,
    /// The line with this 1-based number is not UTF-8.
    UnreadableLine(usize),
    /// The line with this 1-based number is not JSON.
    InvalidJsonLine(usize),
    /// Neither a `session_meta` record nor the file name gives the thread id.
    MissingThreadId,
}

impl ScanError {
    /// The message shown to the user, for the rollout at `path`.
    pub fn message(&self, path: &str) -> (s: String)
        ensures
            s@ == match self {
                ScanError::EmptyRollout => "empty rollout: "@ + path@,
                ScanError::UnreadableLine(n) => "read line "@ + decimal(*n as nat) + " in "@ + path@,
                ScanError::InvalidJsonLine(n) => "invalid JSON line "@ + decimal(*n as nat) + " in "@
                    + path@,
                ScanError::MissingThreadId => "cannot determine thread id for "@ + path@,
            },
    {
        let mut out: Vec<char> = Vec::new();
        match self {
            ScanError::EmptyRollout => {
                extend_str(&mut out, "empty rollout: ");
                extend_str(&mut out, path);
            },
            ScanError::UnreadableLine(n) => {
                extend_str(&mut out, "read line ");
                push_decimal(&mut out, *n);
                extend_str(&mut out, " in ");
                extend_str(&mut out, path);
            },
            ScanError::InvalidJsonLine(n) => {
                extend_str(&mut out, "invalid JSON line ");
                push_decimal(&mut out, *n);
                extend_str(&mut out, " in ");
                extend_str(&mut out, path);
            },
            ScanError::MissingThreadId => {
                extend_str(&mut out, "cannot determine thread id for ");
                extend_str(&mut out, path);
            },
        }
        proof {
            match self {
                ScanError::EmptyRollout => assert(out@ =~= "empty rollout: "@ + path@),
                ScanError::UnreadableLine(n) => assert(out@ =~= "read line "@ + decimal(*n as nat) + " in "@ + path@),
                ScanError::InvalidJsonLine(n) => assert(out@ =~= "invalid JSON line "@ + decimal(*n as nat) + " in "@ + path@),
                ScanError::MissingThreadId => assert(out@ =~= "cannot determine thread id for "@ + path@),
            }
        }
        string_of(out.as_slice())
    }
}

// ---------------------------------------------------------------------------
// Outside calls

/// The Unix time in seconds of an RFC 3339 date, if `s` is one.
pub uninterp spec fn rfc3339_seconds(s: Seq<char>) -> Option<i64>;

/// `chrono::DateTime::parse_from_rfc3339`, then `DateTime::timestamp`.
#[verifier::external_body]
pub(crate) fn parse_timestamp(value: &str) -> (r: Option<i64>)
    ensures
        r == rfc3339_seconds(value@),
{
    chrono::DateTime::parse_from_rfc3339(value).ok().map(|value| value.timestamp())
}

// ---------------------------------------------------------------------------
// Lines

/// A line without its trailing carriage return.
pub open spec fn strip_cr(line: Seq<u8>) -> Seq<u8> {
    if line.len() > 0 && line.last() == 13u8 {
        line.drop_last()
    } else {
        line
    }
}

/// The lines of a text as `BufRead::lines` reads them: cut at `\n`, without
/// an empty piece after a final `\n`, each without a trailing `\r`.
pub open spec fn reader_lines(content: Seq<u8>) -> Seq<Seq<u8>> {
    let parts = split_on(content, 10u8);
    let kept = if parts.len() > 0 && parts.last().len() == 0 {
        parts.drop_last()
    } else {
        parts
    };
    kept.map_values(|l: Seq<u8>| strip_cr(l))
}

pub(crate) fn reader_lines_exec(content: &[u8]) -> (lines: Vec<Vec<u8>>)
    ensures
        bytes_view(lines@) == reader_lines(content@),
{
    let parts = split_bytes(content, 10u8);
    let ghost pv = bytes_view(parts@);
    let mut keep = parts.len();
    if keep > 0 && parts[keep - 1].len() == 0 {
        keep -= 1;
    }
    let ghost kept = if pv.len() > 0 && pv.last().len() == 0 {
        pv.drop_last()
    } else {
        pv
    };
    assert(kept =~= pv.take(keep as int));
    let mut lines: Vec<Vec<u8>> = Vec::new();
    let mut i: usize = 0;
    while i < keep
        invariant
            keep <= parts@.len(),
            i <= keep,
            pv == bytes_view(parts@),
            kept == pv.take(keep as int),
            bytes_view(lines@) == kept.take(i as int).map_values(|l: Seq<u8>| strip_cr(l)),
        decreases keep - i,
    {
        let p = &parts[i];
        let n = p.len();
        let end = if n > 0 && p[n - 1] == 13u8 {
            n - 1
        } else {
            n
        };
        let mut line: Vec<u8> = Vec::new();
        let mut k: usize = 0;
        while k < end
            invariant
                end <= p@.len(),
                k <= end,
                line@ == p@.take(k as int),
            decreases end - k,
        {
            line.push(p[k]);
            assert(p@.take(k + 1) =~= line@);
            k += 1;
        }
        assert(line@ =~= strip_cr(p@));
        assert(kept[i as int] == pv[i as int]);
        assert(pv[i as int] == p@);
        let ghost before = bytes_view(lines@);
        lines.push(line);
        assert(bytes_view(lines@) =~= before.push(strip_cr(p@)));
        assert(kept.take(i + 1).map_values(|l: Seq<u8>| strip_cr(l)) =~= kept.take(
            i as int,
        ).map_values(|l: Seq<u8>| strip_cr(l)).push(strip_cr(kept[i as int])));
        assert(bytes_view(lines@) =~= kept.take(i + 1).map_values(|l: Seq<u8>| strip_cr(l)));
        i += 1;
    }
    assert(kept.take(keep as int) =~= kept);
    lines
}

// ---------------------------------------------------------------------------
// What the lines say

/// What the lines of a rollout have said so far.
pub struct Findings {
    pub id: Option<Seq<char>>,
    pub cwd: Option<Seq<char>>,
    pub timestamp: Option<i64>,
    pub source: Option<Seq<char>>,
    pub thread_source: Option<Seq<char>>,
    pub provider: Option<Seq<char>>,
    pub cli_version: Option<Seq<char>>,
    pub title: Option<Seq<char>>,
    pub first_user_message: Option<Seq<char>>,
}

pub open spec fn nothing_found() -> Findings {
    Findings {
        id: None,
        cwd: None,
        timestamp: None,
        source: None,
        thread_source: None,
        provider: None,
        cli_version: None,
        title: None,
        first_user_message: None,
    }
}

/// The string at `pointer` in a line that is known to be JSON.
pub open spec fn text_at(line: Seq<u8>, pointer: Seq<char>) -> Option<Seq<char>> {
    match json_text_at(line, pointer) {
        Some(t) => t,
        None => None,
    }
}

pub open spec fn content_text_pointer(k: nat) -> Seq<char> {
    "/payload/content/"@ + decimal(k) + "/text"@
}

/// The first string `text` of the items of `payload.content`, among the
/// first `n` items.
pub open spec fn first_content_text(line: Seq<u8>, n: nat) -> Option<Seq<char>>
    decreases n,
{
    if n == 0 {
        None
    } else {
        match first_content_text(line, (n - 1) as nat) {
            Some(t) => Some(t),
            None => text_at(line, content_text_pointer((n - 1) as nat)),
        }
    }
}

/// The text of a user message record: the first string `text` among the
/// items of its `payload.content` array.
pub open spec fn message_text(line: Seq<u8>) -> Option<Seq<char>> {
    match json_len_at(line, "/payload/content"@) {
        Some(Some(n)) => first_content_text(line, n as nat),
        _ => None,
    }
}

/// What one JSON line adds: a `session_meta` record sets the thread's id,
/// cwd, time, source, thread source, provider and CLI version; an
/// `event_msg` renaming the thread sets its title, and the first user
/// message is taken from `event_msg` or user `response_item` records.
pub open spec fn take_line(f: Findings, line: Seq<u8>) -> Findings {
    let kind = text_at(line, "/type"@);
    if kind == Some("session_meta"@) {
        Findings {
            id: text_at(line, "/payload/id"@),
            cwd: text_at(line, "/payload/cwd"@),
            timestamp: match text_at(line, "/payload/timestamp"@) {
                Some(t) => rfc3339_seconds(t),
                None => None,
            },
            source: text_at(line, "/payload/source"@),
            thread_source: text_at(line, "/payload/thread_source"@),
            provider: text_at(line, "/payload/model_provider"@),
            cli_version: text_at(line, "/payload/cli_version"@),
            ..f
        }
    } else if kind == Some("event_msg"@) {
        let event = text_at(line, "/payload/type"@);
        let f1 = if event == Some("thread_name_updated"@) {
            Findings { title: text_at(line, "/payload/thread_name"@), ..f }
        } else {
            f
        };
        if f1.first_user_message is None && event == Some("user_message"@) {
            Findings { first_user_message: text_at(line, "/payload/message"@), ..f1 }
        } else {
            f1
        }
    } else if kind == Some("response_item"@) && f.first_user_message is None {
        if text_at(line, "/payload/type"@) == Some("message"@) && text_at(line, "/payload/role"@)
            == Some("user"@) {
            Findings { first_user_message: message_text(line), ..f }
        } else {
            f
        }
    } else {
        f
    }
}

/// What the lines say, or the first line that is not UTF-8 or not JSON.
pub open spec fn read_lines_spec(lines: Seq<Seq<u8>>) -> Result<Findings, ScanError>
    decreases lines.len(),
{
    if lines.len() == 0 {
        Ok(nothing_found())
    } else {
        match read_lines_spec(lines.drop_last()) {
            Err(e) => Err(e),
            Ok(f) => {
                let line = lines.last();
                let number = lines.len() as usize;
                if !valid_utf8(line) {
                    Err(ScanError::UnreadableLine(number))
                } else if json_text_at(line, "/type"@) is None {
                    Err(ScanError::InvalidJsonLine(number))
                } else {
                    Ok(take_line(f, line))
                }
            },
        }
    }
}

/// The exec form of [`Findings`].
struct Found {
    id: Option<String>,
    cwd: Option<String>,
    timestamp: Option<i64>,
    source: Option<String>,
    thread_source: Option<String>,
    provider: Option<String>,
    cli_version: Option<String>,
    title: Option<String>,
    first_user_message: Option<String>,
}

spec fn found_view(f: Found) -> Findings {
    Findings {
        id: opt_chars(f.id),
        cwd: opt_chars(f.cwd),
        timestamp: f.timestamp,
        source: opt_chars(f.source),
        thread_source: opt_chars(f.thread_source),
        provider: opt_chars(f.provider),
        cli_version: opt_chars(f.cli_version),
        title: opt_chars(f.title),
        first_user_message: opt_chars(f.first_user_message),
    }
}

fn text_in(line: &[u8], pointer: &str) -> (r: Option<String>)
    ensures
        opt_chars(r) == text_at(line@, pointer@),
{
    match json_text(line, pointer) {
        Some(t) => t,
        None => None,
    }
}

fn is_text(o: &Option<String>, s: &str) -> (r: bool)
    ensures
        r == (opt_chars(*o) == Some(s@)),
{
    match o {
        Some(t) => str_equal(t.as_str(), s),
        None => false,
    }
}

fn content_pointer(k: usize) -> (p: String)
    ensures
        p@ == content_text_pointer(k as nat),
{
    let mut v = chars_of("/payload/content/");
    push_decimal(&mut v, k);
    let tail = chars_of("/text");
    extend_chars(&mut v, tail.as_slice());
    string_of(v.as_slice())
}

fn message_text_exec(line: &[u8]) -> (r: Option<String>)
    ensures
        opt_chars(r) == message_text(line@),
{
    let n = match json_len(line, "/payload/content") {
        Some(Some(n)) => n,
        _ => {
            return None;
        },
    };
    let mut k: usize = 0;
    while k < n
        invariant
            k <= n,
            json_len_at(line@, "/payload/content"@) == Some(Some(n)),
            first_content_text(line@, k as nat) is None,
        decreases n - k,
    {
        let p = content_pointer(k);
        let t = text_in(line, p.as_str());
        if t.is_some() {
            assert(first_content_text(line@, (k + 1) as nat) == opt_chars(t));
            proof {
                lemma_first_content_text_stable(line@, (k + 1) as nat, n as nat);
            }
            return t;
        }
        k += 1;
    }
    None
}

proof fn lemma_first_content_text_stable(line: Seq<u8>, k: nat, n: nat)
    requires
        k <= n,
        first_content_text(line, k) is Some,
    ensures
        first_content_text(line, n) == first_content_text(line, k),
    decreases n - k,
{
    if k < n {
        lemma_first_content_text_stable(line, k, (n - 1) as nat);
    }
}

fn take_line_exec(f: Found, line: &[u8]) -> (r: Found)
    ensures
        found_view(r) == take_line(found_view(f), line@),
{
    let kind = text_in(line, "/type");
    if is_text(&kind, "session_meta") {
        let timestamp = match text_in(line, "/payload/timestamp") {
            Some(t) => parse_timestamp(t.as_str()),
            None => None,
        };
        Found {
            id: text_in(line, "/payload/id"),
            cwd: text_in(line, "/payload/cwd"),
            timestamp,
            source: text_in(line, "/payload/source"),
            thread_source: text_in(line, "/payload/thread_source"),
            provider: text_in(line, "/payload/model_provider"),
            cli_version: text_in(line, "/payload/cli_version"),
            ..f
        }
    } else if is_text(&kind, "event_msg") {
        let event = text_in(line, "/payload/type");
        let f1 = if is_text(&event, "thread_name_updated") {
            Found { title: text_in(line, "/payload/thread_name"), ..f }
        } else {
            f
        };
        if f1.first_user_message.is_none() && is_text(&event, "user_message") {
            Found { first_user_message: text_in(line, "/payload/message"), ..f1 }
        } else {
            f1
        }
    } else if is_text(&kind, "response_item") && f.first_user_message.is_none() {
        let payload_type = text_in(line, "/payload/type");
        let role = text_in(line, "/payload/role");
        if is_text(&payload_type, "message") && is_text(&role, "user") {
            Found { first_user_message: message_text_exec(line), ..f }
        } else {
            f
        }
    } else {
        f
    }
}

proof fn lemma_read_err_prefix(lines: Seq<Seq<u8>>, k: int)
    requires
        0 <= k <= lines.len(),
        read_lines_spec(lines.take(k)) is Err,
    ensures
        read_lines_spec(lines) == read_lines_spec(lines.take(k)),
    decreases lines.len(),
{
    if k < lines.len() {
        assert(lines.drop_last().take(k) =~= lines.take(k));
        lemma_read_err_prefix(lines.drop_last(), k);
    } else {
        assert(lines.take(k) =~= lines);
    }
}

fn read_lines(content: &[u8]) -> (r: Result<Found, ScanError>)
    ensures
        match r {
            Ok(f) => read_lines_spec(reader_lines(content@)) == Ok::<Findings, ScanError>(
                found_view(f),
            ),
            Err(e) => read_lines_spec(reader_lines(content@)) == Err::<Findings, ScanError>(e) && (
            e is UnreadableLine || e is InvalidJsonLine),
        },
{
    let lines = reader_lines_exec(content);
    let ghost all = bytes_view(lines@);
    let mut f = Found {
        id: None,
        cwd: None,
        timestamp: None,
        source: None,
        thread_source: None,
        provider: None,
        cli_version: None,
        title: None,
        first_user_message: None,
    };
    let mut i: usize = 0;
    while i < lines.len()
        invariant
            i <= lines@.len(),
            all == bytes_view(lines@),
            all == reader_lines(content@),
            read_lines_spec(all.take(i as int)) == Ok::<Findings, ScanError>(found_view(f)),
        decreases lines@.len() - i,
    {
        let line = lines[i].as_slice();
        assert(all.take(i + 1).drop_last() =~= all.take(i as int));
        assert(all.take(i + 1).last() == line@);
        if crate::text::utf8_text(line).is_none() {
            proof {
                lemma_read_err_prefix(all, i + 1);
            }
            return Err(ScanError::UnreadableLine(i + 1));
        }
        if json_text(line, "/type").is_none() {
            proof {
                lemma_read_err_prefix(all, i + 1);
            }
            return Err(ScanError::InvalidJsonLine(i + 1));
        }
        f = take_line_exec(f, line);
        i += 1;
    }
    assert(all.take(lines@.len() as int) =~= all);
    Ok(f)
}

// ---------------------------------------------------------------------------
// Names and titles

/// The last `count` `-`-separated parts of `s` with the separators between
/// them, if `s` has that many parts (`count` is at least one).
pub open spec fn last_parts(s: Seq<char>, count: nat) -> Option<Seq<char>>
    decreases s.len(),
{
    if s.len() == 0 {
        if count == 1 {
            Some(seq![])
        } else {
            None
        }
    } else if s.last() != '-' {
        match last_parts(s.drop_last(), count) {
            Some(p) => Some(p.push(s.last())),
            None => None,
        }
    } else if count <= 1 {
        Some(seq![])
    } else {
        match last_parts(s.drop_last(), (count - 1) as nat) {
            Some(p) => Some(p.push('-')),
            None => None,
        }
    }
}

pub open spec fn with_tail(o: Option<Seq<char>>, tail: Seq<char>) -> Option<Seq<char>> {
    match o {
        Some(p) => Some(p + tail),
        None => None,
    }
}

/// The thread id in a rollout's file name: the last five `-`-separated parts
/// of the file stem, as in `rollout-<time>-<uuid>`.
pub fn id_from_file_stem(stem: &str) -> (r: Option<String>)
    ensures
        opt_chars(r) == last_parts(stem@, 5),
{
    let s = chars_of(stem);
    let mut count: usize = 5;
    let mut start = s.len();
    assert(s@.take(s@.len() as int) =~= s@);
    assert(s@.skip(s@.len() as int) =~= seq![]);
    proof {
        let lp = last_parts(s@, 5);
        assert(with_tail(lp, seq![]) == lp) by {
            if lp is Some {
                assert(lp->0 + seq![] =~= lp->0);
            }
        }
    }
    while start > 0 && !(s[start - 1] == '-' && count == 1)
        invariant
            start <= s@.len(),
            1 <= count <= 5,
            last_parts(s@, 5) == with_tail(
                last_parts(s@.take(start as int), count as nat),
                s@.skip(start as int),
            ),
        decreases start,
    {
        let ghost t = s@.take(start as int);
        let ghost old_count = count;
        assert(t.drop_last() =~= s@.take(start - 1));
        assert(s@.skip(start - 1) =~= seq![s@[start - 1]] + s@.skip(start as int));
        let c = s[start - 1];
        if c == '-' {
            count -= 1;
        }
        start -= 1;
        proof {
            let lp = last_parts(s@.take(start as int), count as nat);
            if lp is Some {
                assert(lp->0.push(c) + s@.skip(start + 1) =~= lp->0 + s@.skip(start as int));
            }
        }
    }
    if start == 0 && count > 1 {
        assert(s@.take(0) =~= seq![]);
        return None;
    }
    proof {
        if start == 0 {
            assert(s@.take(0) =~= seq![]);
        }
        assert(seq![] + s@.skip(start as int) =~= s@.skip(start as int));
    }
    let tail = sub_chars(s.as_slice(), start, s.len());
    assert(tail@ =~= s@.skip(start as int));
    Some(string_of(tail.as_slice()))
}

/// The words of `s` (separated by whitespace) joined by single spaces, with
/// whether a space is owed before the next word.
pub open spec fn compact_state(s: Seq<char>) -> (Seq<char>, bool)
    decreases s.len(),
{
    if s.len() == 0 {
        (seq![], false)
    } else {
        let (out, pending) = compact_state(s.drop_last());
        let c = s.last();
        if is_white_space(c) {
            (out, out.len() > 0)
        } else {
            (
                if pending {
                    out.push(' ')
                } else {
                    out
                }.push(c),
                false,
            )
        }
    }
}

/// A title made from a message: its words joined by single spaces
/// (`split_whitespace` and `join`), at most 80 characters.
pub open spec fn summarize_spec(value: Seq<char>) -> Seq<char> {
    let words = compact_state(value).0;
    if words.len() > 80 {
        words.take(80)
    } else {
        words
    }
}

pub fn summarize_title(value: &str) -> (r: String)
    ensures
        r@ == summarize_spec(value@),
{
    let v = chars_of(value);
    let mut out: Vec<char> = Vec::new();
    let mut pending = false;
    let mut i: usize = 0;
    while i < v.len()
        invariant
            i <= v@.len(),
            (out@, pending) == compact_state(v@.take(i as int)),
        decreases v@.len() - i,
    {
        assert(v@.take(i + 1).drop_last() =~= v@.take(i as int));
        let c = v[i];
        if white_space(c) {
            pending = out.len() > 0;
        } else {
            if pending {
                out.push(' ');
            }
            out.push(c);
            pending = false;
        }
        i += 1;
    }
    assert(v@.take(v@.len() as int) =~= v@);
    if out.len() > 80 {
        let t = sub_chars(out.as_slice(), 0, 80);
        assert(t@ =~= out@.take(80));
        string_of(t.as_slice())
    } else {
        string_of(out.as_slice())
    }
}

/// The metadata of the last entry with this id.
pub open spec fn metadata_for(entries: Seq<(String, DbMetadata)>, id: Seq<char>) -> Option<DbMetadata>
    decreases entries.len(),
{
    if entries.len() == 0 {
        None
    } else if entries.last().0@ == id {
        Some(entries.last().1)
    } else {
        metadata_for(entries.drop_last(), id)
    }
}

fn find_metadata<'a>(entries: &'a [(String, DbMetadata)], id: &str) -> (r: Option<&'a DbMetadata>)
    ensures
        match r {
            Some(m) => metadata_for(entries@, id@) == Some(*m),
            None => metadata_for(entries@, id@) is None,
        },
{
    let mut j = entries.len();
    assert(entries@.take(entries@.len() as int) =~= entries@);
    while j > 0
        invariant
            j <= entries@.len(),
            metadata_for(entries@, id@) == metadata_for(entries@.take(j as int), id@),
        decreases j,
    {
        assert(entries@.take(j as int).drop_last() =~= entries@.take(j - 1));
        if str_equal(entries[j - 1].0.as_str(), id) {
            return Some(&entries[j - 1].1);
        }
        j -= 1;
    }
    None
}

pub open spec fn or_text(a: Option<Seq<char>>, b: Option<Seq<char>>) -> Option<Seq<char>> {
    match a {
        Some(x) => Some(x),
        None => b,
    }
}

pub open spec fn or_default(a: Option<Seq<char>>, d: Seq<char>) -> Seq<char> {
    match a {
        Some(x) => x,
        None => d,
    }
}

pub open spec fn non_empty(a: Option<Seq<char>>) -> Option<Seq<char>> {
    match a {
        Some(x) => if x.len() > 0 {
            Some(x)
        } else {
            None
        },
        None => None,
    }
}

pub open spec fn meta_text(m: Option<DbMetadata>, field: spec_fn(DbMetadata) -> Seq<char>) -> Option<
    Seq<char>,
> {
    match m {
        Some(x) => Some(field(x)),
        None => None,
    }
}

pub open spec fn meta_opt(m: Option<DbMetadata>, field: spec_fn(DbMetadata) -> Option<String>) -> Option<
    Seq<char>,
> {
    match m {
        Some(x) => opt_chars(field(x)),
        None => None,
    }
}

pub open spec fn slash_path(s: Seq<char>) -> Seq<char> {
    s.map_values(|c: char| crate::path_mapper::slash_for_backslash(c))
}

/// The record of a thread: what its rollout says, completed or overridden by
/// the database metadata as the scanner has always done it (titles and first
/// messages prefer the database; cwd, source, provider and version prefer
/// the rollout; times come from the database, else from the rollout).
pub open spec fn record_spec(
    r: ThreadRecord,
    f: Findings,
    id: Seq<char>,
    m: Option<DbMetadata>,
    archived: bool,
    relative: Seq<char>,
    content: Seq<u8>,
) -> bool {
    &&& r.id@ == id
    &&& r.title@ == or_default(
        or_text(
            or_text(non_empty(meta_text(m, |x: DbMetadata| x.title@)), non_empty(f.title)),
            match f.first_user_message {
                Some(t) => Some(summarize_spec(t)),
                None => None,
            },
        ),
        seq![],
    )
    &&& r.created_at == match m {
        Some(x) => x.created_at,
        None => match f.timestamp {
            Some(t) => t,
            None => 0,
        },
    }
    &&& r.updated_at == match m {
        Some(x) => x.updated_at,
        None => match f.timestamp {
            Some(t) => t,
            None => 0,
        },
    }
    &&& r.cwd@ == or_default(or_text(f.cwd, meta_text(m, |x: DbMetadata| x.cwd@)), seq![])
    &&& r.source@ == or_default(
        or_text(f.source, meta_text(m, |x: DbMetadata| x.source@)),
        "unknown"@,
    )
    &&& opt_chars(r.thread_source) == or_text(
        f.thread_source,
        meta_opt(m, |x: DbMetadata| x.thread_source),
    )
    &&& r.model_provider@ == or_default(
        or_text(f.provider, meta_text(m, |x: DbMetadata| x.model_provider@)),
        "openai"@,
    )
    &&& r.cli_version@ == or_default(
        or_text(f.cli_version, meta_text(m, |x: DbMetadata| x.cli_version@)),
        seq![],
    )
    &&& r.archived == archived
    &&& r.archive_path@ == (if archived {
        "archived_sessions/"@
    } else {
        "sessions/"@
    }) + slash_path(relative)
    &&& r.sha256@ == hex_lower(sha256_of(content))
    &&& r.byte_len == content.len()
    &&& r.first_user_message@ == or_default(
        or_text(
            non_empty(meta_text(m, |x: DbMetadata| x.first_user_message@)),
            f.first_user_message,
        ),
        seq![],
    )
    &&& opt_chars(r.sandbox_policy) == meta_opt(m, |x: DbMetadata| x.sandbox_policy)
    &&& opt_chars(r.approval_mode) == meta_opt(m, |x: DbMetadata| x.approval_mode)
    &&& opt_chars(r.model) == meta_opt(m, |x: DbMetadata| x.model)
    &&& opt_chars(r.reasoning_effort) == meta_opt(m, |x: DbMetadata| x.reasoning_effort)
}

fn or_string(a: Option<String>, b: Option<String>) -> (r: Option<String>)
    ensures
        opt_chars(r) == or_text(opt_chars(a), opt_chars(b)),
{
    match a {
        Some(x) => Some(x),
        None => b,
    }
}

fn or_default_string(a: Option<String>, d: &str) -> (r: String)
    ensures
        r@ == or_default(opt_chars(a), d@),
{
    match a {
        Some(x) => x,
        None => {
            let v = chars_of(d);
            string_of(v.as_slice())
        },
    }
}

fn or_empty_string(a: Option<String>) -> (r: String)
    ensures
        r@ == or_default(opt_chars(a), seq![]),
{
    match a {
        Some(x) => x,
        None => String::new(),
    }
}

fn non_empty_string(a: Option<String>) -> (r: Option<String>)
    ensures
        opt_chars(r) == non_empty(opt_chars(a)),
{
    match a {
        Some(x) => if x.as_str().is_empty() {
            None
        } else {
            Some(x)
        },
        None => None,
    }
}

/// The record of a thread read from its rollout `content`, looked up in the
/// database `metadata` by its id (see [`record_spec`]); an empty rollout, a
/// line that is not UTF-8 or not JSON, or a missing id is refused.
///
/// `file_stem` is the rollout's file name without its extension, and
/// `relative` its path below the sessions folder it was found in.
pub fn scan_rollout_content(
    content: Vec<u8>,
    source_path: &str,
    relative: &str,
    file_stem: Option<&str>,
    archived: bool,
    metadata: &[(String, DbMetadata)],
) -> (result: Result<ScannedThread, ScanError>)
    ensures
        match result {
            Ok(t) => {
                &&& content@.len() > 0
                &&& read_lines_spec(reader_lines(content@)) is Ok
                &&& {
                    let f = read_lines_spec(reader_lines(content@))->Ok_0;
                    let id = match f.id {
                        Some(i) => i,
                        None => match file_stem {
                            Some(stem) => last_parts(stem@, 5)->0,
                            None => seq![],
                        },
                    };
                    &&& (f.id is Some || (file_stem is Some && last_parts(
                        file_stem->0@,
                        5,
                    ) is Some))
                    &&& record_spec(
                        t.record,
                        f,
                        id,
                        metadata_for(metadata@, id),
                        archived,
                        relative@,
                        content@,
                    )
                }
                &&& t.source_path@ == source_path@
                &&& t.content@ == content@
            },
            Err(ScanError::EmptyRollout) => content@.len() == 0,
            Err(ScanError::MissingThreadId) => content@.len() > 0 && read_lines_spec(
                reader_lines(content@),
            ) is Ok && read_lines_spec(reader_lines(content@))->Ok_0.id is None && (
            file_stem is None || last_parts(file_stem->0@, 5) is None),
            Err(e) => content@.len() > 0 && read_lines_spec(reader_lines(content@)) == Err::<
                Findings,
                ScanError,
            >(e),
        },
{
    if content.len() == 0 {
        return Err(ScanError::EmptyRollout);
    }
    let f = match read_lines(content.as_slice()) {
        Ok(f) => f,
        Err(e) => {
            return Err(e);
        },
    };
    let id = match f.id {
        Some(i) => i,
        None => {
            let from_name = match file_stem {
                Some(stem) => id_from_file_stem(stem),
                None => None,
            };
            match from_name {
                Some(i) => i,
                None => {
                    return Err(ScanError::MissingThreadId);
                },
            }
        },
    };
    let m = find_metadata(metadata, id.as_str());
    let digest = sha256_digest(content.as_slice());
    let sha256 = hex_encode(digest.as_slice());
    let rel = chars_of(relative);
    let mut archive = if archived {
        chars_of("archived_sessions/")
    } else {
        chars_of("sessions/")
    };
    let mut k: usize = 0;
    let ghost prefix = archive@;
    while k < rel.len()
        invariant
            k <= rel@.len(),
            archive@ == prefix + slash_path(rel@.take(k as int)),
        decreases rel@.len() - k,
    {
        let c = rel[k];
        archive.push(if c == '\\' { '/' } else { c });
        assert(slash_path(rel@.take(k + 1)) =~= slash_path(rel@.take(k as int)).push(
            crate::path_mapper::slash_for_backslash(rel@[k as int]),
        ));
        assert(archive@ =~= prefix + slash_path(rel@.take(k + 1)));
        k += 1;
    }
    assert(rel@.take(rel@.len() as int) =~= rel@);
    let title_from_message = match &f.first_user_message {
        Some(t) => Some(summarize_title(t.as_str())),
        None => None,
    };
    let meta_title = match m {
        Some(x) => Some(x.title.clone()),
        None => None,
    };
    let title = or_empty_string(
        or_string(
            or_string(non_empty_string(meta_title), non_empty_string(f.title)),
            title_from_message,
        ));
    let meta_first = match m {
        Some(x) => Some(x.first_user_message.clone()),
        None => None,
    };
    let first_user_message = or_empty_string(
        or_string(non_empty_string(meta_first), f.first_user_message));
    let (created_at, updated_at) = match m {
        Some(x) => (x.created_at, x.updated_at),
        None => match f.timestamp {
            Some(t) => (t, t),
            None => (0, 0),
        },
    };
    let meta_cwd = match m {
        Some(x) => Some(x.cwd.clone()),
        None => None,
    };
    let meta_source = match m {
        Some(x) => Some(x.source.clone()),
        None => None,
    };
    let meta_provider = match m {
        Some(x) => Some(x.model_provider.clone()),
        None => None,
    };
    let meta_cli = match m {
        Some(x) => Some(x.cli_version.clone()),
        None => None,
    };
    let meta_thread_source = match m {
        Some(x) => crate::model::copy_opt_string(&x.thread_source),
        None => None,
    };
    let (sandbox_policy, approval_mode, model, reasoning_effort) = match m {
        Some(x) => (
            crate::model::copy_opt_string(&x.sandbox_policy),
            crate::model::copy_opt_string(&x.approval_mode),
            crate::model::copy_opt_string(&x.model),
            crate::model::copy_opt_string(&x.reasoning_effort),
        ),
        None => (None, None, None, None),
    };
    let byte_len = content.len() as u64;
    let record = ThreadRecord {
        id,
        title,
        created_at,
        updated_at,
        cwd: or_empty_string(or_string(f.cwd, meta_cwd)),
        source: or_default_string(or_string(f.source, meta_source), "unknown"),
        thread_source: or_string(f.thread_source, meta_thread_source),
        model_provider: or_default_string(or_string(f.provider, meta_provider), "openai"),
        cli_version: or_empty_string(or_string(f.cli_version, meta_cli)),
        archived,
        archive_path: string_of(archive.as_slice()),
        sha256,
        byte_len,
        first_user_message,
        sandbox_policy,
        approval_mode,
        model,
        reasoning_effort,
    };
    let v = chars_of(source_path);
    Ok(ScannedThread { record, source_path: string_of(v.as_slice()), content })
}

// ---------------------------------------------------------------------------
// A whole Codex home

impl Ranked for ScannedThread {
    /// Earlier updated threads come first, and among equally recent ones the
    /// smaller id.
    open spec fn precedes(a: Self, b: Self) -> bool {
        a.record.updated_at < b.record.updated_at || (a.record.updated_at == b.record.updated_at
            && seq_less(a.record.id@, b.record.id@))
    }

    fn goes_before(&self, other: &Self) -> (r: bool) {
        self.record.updated_at < other.record.updated_at || (self.record.updated_at
            == other.record.updated_at && str_less(
            self.record.id.as_str(),
            other.record.id.as_str(),
        ))
    }
}

/// The threads of a Codex home, from the rollouts found under `sessions`
/// and then under `archived_sessions`: ordered by update time, then by id,
/// equal ones in the order they were found.
pub fn scan_codex_home(found: Vec<ScannedThread>) -> (threads: Vec<ScannedThread>)
    ensures
        threads@ == sort_ranked(found@),
{
    sort_stable(found)
}

/// Whether a file is a rollout: its extension is `jsonl`.
pub fn is_rollout_name(file_name: &str) -> (r: bool)
    ensures
        r == (ends_with(file_name@, ".jsonl"@) && file_name@.len() > 6),
{
    let v = chars_of(file_name);
    let suffix = chars_of(".jsonl");
    proof {
        reveal_strlit(".jsonl");
    }
    v.len() > 6 && crate::text::ends_with_chars(v.as_slice(), suffix.as_slice())
}

/// The column of the threads table that is read for an optional field: the
/// field's own column when the table has it, else a constant.
pub open spec fn column_or(columns: Seq<String>, name: Seq<char>, fallback: Seq<char>) -> Seq<char> {
    if has_string(columns, name) {
        name
    } else {
        fallback
    }
}

/// The query that reads the metadata of every thread, given the columns of
/// the threads table.
pub open spec fn metadata_query_spec(columns: Seq<String>) -> Seq<char> {
    "SELECT id, title, created_at, updated_at, cwd, source, model_provider, "@ + column_or(
        columns,
        "cli_version"@,
        "''"@,
    ) + ", "@ + column_or(columns, "first_user_message"@, "''"@) + ", "@ + column_or(
        columns,
        "sandbox_policy"@,
        "NULL"@,
    ) + ", "@ + column_or(columns, "approval_mode"@, "NULL"@) + ", "@ + column_or(
        columns,
        "model"@,
        "NULL"@,
    ) + ", "@ + column_or(columns, "reasoning_effort"@, "NULL"@) + ", "@ + column_or(
        columns,
        "thread_source"@,
        "NULL"@,
    ) + " FROM threads"@
}

fn push_column(out: &mut Vec<char>, columns: &[String], name: &str, fallback: &str)
    ensures
        final(out)@ == old(out)@ + column_or(columns@, name@, fallback@),
{
    if crate::merge::contains_string(columns, name) {
        extend_str(out, name);
    } else {
        extend_str(out, fallback);
    }
}

/// The query that reads the metadata of every thread (see
/// [`metadata_query_spec`]).
pub fn metadata_query(columns: &[String]) -> (sql: String)
    ensures
        sql@ == metadata_query_spec(columns@),
{
    let mut out: Vec<char> = Vec::new();
    extend_str(&mut out, "SELECT id, title, created_at, updated_at, cwd, source, model_provider, ");
    push_column(&mut out, columns, "cli_version", "''");
    extend_str(&mut out, ", ");
    push_column(&mut out, columns, "first_user_message", "''");
    extend_str(&mut out, ", ");
    push_column(&mut out, columns, "sandbox_policy", "NULL");
    extend_str(&mut out, ", ");
    push_column(&mut out, columns, "approval_mode", "NULL");
    extend_str(&mut out, ", ");
    push_column(&mut out, columns, "model", "NULL");
    extend_str(&mut out, ", ");
    push_column(&mut out, columns, "reasoning_effort", "NULL");
    extend_str(&mut out, ", ");
    push_column(&mut out, columns, "thread_source", "NULL");
    extend_str(&mut out, " FROM threads");
    assert(out@ =~= metadata_query_spec(columns@));
    string_of(out.as_slice())
}

proof fn lemma_thread_order_is_strict_weak()
    ensures
        crate::order::strict_weak::<ScannedThread>(),
{
    assert forall|a: ScannedThread, b: ScannedThread| #[trigger]
        <ScannedThread as Ranked>::precedes(a, b) implies !<ScannedThread as Ranked>::precedes(
        b,
        a,
    ) by {
        crate::text::lemma_seq_less_total(a.record.id@, b.record.id@);
    }
    assert forall|a: ScannedThread, b: ScannedThread, c: ScannedThread|
        !<ScannedThread as Ranked>::precedes(c, b) && !<ScannedThread as Ranked>::precedes(
            b,
            a,
        ) implies !<ScannedThread as Ranked>::precedes(c, a) by {
        let (x, y, z) = (a.record.id@, b.record.id@, c.record.id@);
        crate::text::lemma_seq_less_total(x, y);
        crate::text::lemma_seq_less_total(y, z);
        crate::text::lemma_seq_less_total(x, z);
        crate::text::lemma_seq_less_irreflexive(x);
        if seq_less(x, y) && seq_less(y, z) {
            crate::text::lemma_seq_less_transitive(x, y, z);
        }
    }
}

/// The threads of a home come ordered: by update time, and among equally
/// recent ones by id, ascending.
pub proof fn law_scanned_threads_sorted(found: Seq<ScannedThread>)
    ensures
        forall|i: int, j: int|
            0 <= i < j < sort_ranked(found).len() ==> {
                let (a, b) = (#[trigger] sort_ranked(found)[i].record, #[trigger] sort_ranked(found)[j].record);
                a.updated_at < b.updated_at || (a.updated_at == b.updated_at && !seq_less(
                    b.id@,
                    a.id@,
                ))
            },
{
    lemma_thread_order_is_strict_weak();
    crate::order::law_sort_is_sorted(found);
    let s = sort_ranked(found);
    assert forall|i: int, j: int| 0 <= i < j < s.len() implies {
        let (a, b) = (#[trigger] s[i].record, #[trigger] s[j].record);
        a.updated_at < b.updated_at || (a.updated_at == b.updated_at && !seq_less(b.id@, a.id@))
    } by {
        assert(!<ScannedThread as Ranked>::precedes(s[j], s[i]));
    }
}

/// A `session_meta` record.
pub open spec fn is_session_meta(line: Seq<u8>) -> bool {
    text_at(line, "/type"@) == Some("session_meta"@)
}

/// What a `session_meta` record says of the thread: id, cwd, time, source,
/// thread source, provider and CLI version.
pub open spec fn session_fields(f: Findings) -> (
    Option<Seq<char>>,
    Option<Seq<char>>,
    Option<i64>,
    Option<Seq<char>>,
    Option<Seq<char>>,
    Option<Seq<char>>,
    Option<Seq<char>>,
) {
    (f.id, f.cwd, f.timestamp, f.source, f.thread_source, f.provider, f.cli_version)
}

proof fn lemma_last_session_meta(lines: Seq<Seq<u8>>)
    requires
        read_lines_spec(lines) is Ok,
    ensures
        (forall|i: int| 0 <= i < lines.len() ==> !is_session_meta(#[trigger] lines[i]))
            ==> session_fields(read_lines_spec(lines)->Ok_0) == session_fields(nothing_found()),
        forall|w: int|
            0 <= w < lines.len() && is_session_meta(#[trigger] lines[w]) && (forall|j: int|
                w < j < lines.len() ==> !is_session_meta(#[trigger] lines[j])) ==> session_fields(
                read_lines_spec(lines)->Ok_0,
            ) == session_fields(take_line(nothing_found(), lines[w])),
    decreases lines.len(),
{
    if lines.len() > 0 {
        let init = lines.drop_last();
        let last = lines.len() - 1;
        lemma_last_session_meta(init);
        assert forall|i: int| 0 <= i < init.len() implies #[trigger] init[i] == lines[i] by {}
        let f = read_lines_spec(init)->Ok_0;
        assert(read_lines_spec(lines)->Ok_0 == take_line(f, lines[last]));
        reveal_strlit("session_meta");
        reveal_strlit("event_msg");
        reveal_strlit("response_item");
        if !is_session_meta(lines[last]) {
            assert(session_fields(take_line(f, lines[last])) == session_fields(f));
            assert forall|w: int|
                0 <= w < lines.len() && is_session_meta(#[trigger] lines[w]) && (forall|j: int|
                    w < j < lines.len() ==> !is_session_meta(#[trigger] lines[j])) implies session_fields(
                read_lines_spec(lines)->Ok_0,
            ) == session_fields(take_line(nothing_found(), lines[w])) by {
                assert(w != last);
                assert(init[w] == lines[w]);
                assert forall|j: int| w < j < init.len() implies !is_session_meta(#[trigger] init[j]) by {
                    assert(init[j] == lines[j]);
                }
            }
            if forall|i: int| 0 <= i < lines.len() ==> !is_session_meta(#[trigger] lines[i]) {
                assert forall|i: int| 0 <= i < init.len() implies !is_session_meta(#[trigger] init[i]) by {
                    assert(init[i] == lines[i]);
                }
            }
        } else {
            assert forall|w: int|
                0 <= w < lines.len() && is_session_meta(#[trigger] lines[w]) && (forall|j: int|
                    w < j < lines.len() ==> !is_session_meta(#[trigger] lines[j])) implies session_fields(
                read_lines_spec(lines)->Ok_0,
            ) == session_fields(take_line(nothing_found(), lines[w])) by {
                if w < last {
                    assert(is_session_meta(lines[last]));
                }
            }
        }
    }
}

/// The last `session_meta` record of a rollout decides its id, cwd, time,
/// source, thread source, provider and CLI version; with none, they are
/// all unknown.
pub proof fn law_last_session_meta_wins(content: Seq<u8>)
    requires
        read_lines_spec(reader_lines(content)) is Ok,
    ensures
        ({
            let lines = reader_lines(content);
            let found = read_lines_spec(lines)->Ok_0;
            &&& (forall|i: int| 0 <= i < lines.len() ==> !is_session_meta(#[trigger] lines[i]))
                ==> session_fields(found) == session_fields(nothing_found())
            &&& forall|w: int|
                0 <= w < lines.len() && is_session_meta(#[trigger] lines[w]) && (forall|j: int|
                    w < j < lines.len() ==> !is_session_meta(#[trigger] lines[j])) ==> session_fields(
                    found,
                ) == session_fields(take_line(nothing_found(), lines[w]))
        }),
{
    lemma_last_session_meta(reader_lines(content));
}

/// An `event_msg` record that renames the thread.
pub open spec fn is_rename(line: Seq<u8>) -> bool {
    text_at(line, "/type"@) == Some("event_msg"@) && text_at(line, "/payload/type"@) == Some(
        "thread_name_updated"@,
    )
}

proof fn lemma_last_rename(lines: Seq<Seq<u8>>)
    requires
        read_lines_spec(lines) is Ok,
    ensures
        (forall|i: int| 0 <= i < lines.len() ==> !is_rename(#[trigger] lines[i]))
            ==> read_lines_spec(lines)->Ok_0.title is None,
        forall|w: int|
            0 <= w < lines.len() && is_rename(#[trigger] lines[w]) && (forall|j: int|
                w < j < lines.len() ==> !is_rename(#[trigger] lines[j])) ==> read_lines_spec(
                lines,
            )->Ok_0.title == text_at(lines[w], "/payload/thread_name"@),
    decreases lines.len(),
{
    if lines.len() > 0 {
        let init = lines.drop_last();
        let last = lines.len() - 1;
        lemma_last_rename(init);
        assert forall|i: int| 0 <= i < init.len() implies #[trigger] init[i] == lines[i] by {}
        let f = read_lines_spec(init)->Ok_0;
        assert(read_lines_spec(lines)->Ok_0 == take_line(f, lines[last]));
        reveal_strlit("session_meta");
        reveal_strlit("event_msg");
        reveal_strlit("response_item");
        reveal_strlit("thread_name_updated");
        if !is_rename(lines[last]) {
            assert(take_line(f, lines[last]).title == f.title);
            assert forall|w: int|
                0 <= w < lines.len() && is_rename(#[trigger] lines[w]) && (forall|j: int|
                    w < j < lines.len() ==> !is_rename(#[trigger] lines[j])) implies read_lines_spec(
                lines,
            )->Ok_0.title == text_at(lines[w], "/payload/thread_name"@) by {
                assert(w != last);
                assert(init[w] == lines[w]);
                assert forall|j: int| w < j < init.len() implies !is_rename(#[trigger] init[j]) by {
                    assert(init[j] == lines[j]);
                }
            }
            if forall|i: int| 0 <= i < lines.len() ==> !is_rename(#[trigger] lines[i]) {
                assert forall|i: int| 0 <= i < init.len() implies !is_rename(#[trigger] init[i]) by {
                    assert(init[i] == lines[i]);
                }
            }
        } else {
            assert forall|w: int|
                0 <= w < lines.len() && is_rename(#[trigger] lines[w]) && (forall|j: int|
                    w < j < lines.len() ==> !is_rename(#[trigger] lines[j])) implies read_lines_spec(
                lines,
            )->Ok_0.title == text_at(lines[w], "/payload/thread_name"@) by {
                if w < last {
                    assert(is_rename(lines[last]));
                } else {
                    reveal_strlit("session_meta");
                    reveal_strlit("event_msg");
                    assert("event_msg"@.len() != "session_meta"@.len());
                    let line = lines[last];
                    let f1 = Findings { title: text_at(line, "/payload/thread_name"@), ..f };
                    assert(take_line(f, line).title == f1.title);
                }
            }
        }
    }
}

/// The last renaming of a thread names it: the title a rollout gives is
/// the name of its last `thread_name_updated` event, or none without one.
/// (A scanned record takes the database title first, then this one, then a
/// summary of the first user message; see [`record_spec`].)
pub proof fn law_last_rename_names_thread(content: Seq<u8>)
    requires
        read_lines_spec(reader_lines(content)) is Ok,
    ensures
        ({
            let lines = reader_lines(content);
            let found = read_lines_spec(lines)->Ok_0;
            &&& (forall|i: int| 0 <= i < lines.len() ==> !is_rename(#[trigger] lines[i]))
                ==> found.title is None
            &&& forall|w: int|
                0 <= w < lines.len() && is_rename(#[trigger] lines[w]) && (forall|j: int|
                    w < j < lines.len() ==> !is_rename(#[trigger] lines[j])) ==> found.title
                    == text_at(lines[w], "/payload/thread_name"@)
        }),
{
    lemma_last_rename(reader_lines(content));
}

/// The user message a line carries: the `message` of an `event_msg`
/// user message, or the first content text of a user `response_item`
/// message.
pub open spec fn user_message_of(line: Seq<u8>) -> Option<Seq<char>> {
    let kind = text_at(line, "/type"@);
    if kind == Some("event_msg"@) && text_at(line, "/payload/type"@) == Some("user_message"@) {
        text_at(line, "/payload/message"@)
    } else if kind == Some("response_item"@) && text_at(line, "/payload/type"@) == Some(
        "message"@,
    ) && text_at(line, "/payload/role"@) == Some("user"@) {
        message_text(line)
    } else {
        None
    }
}

/// Once the lines read so far have given a first user message, no later
/// line changes it.
pub proof fn law_first_user_message_stays(f: Findings, line: Seq<u8>)
    requires
        f.first_user_message is Some,
    ensures
        take_line(f, line).first_user_message == f.first_user_message,
{
}

proof fn lemma_take_line_user_message(f: Findings, line: Seq<u8>)
    requires
        f.first_user_message is None,
    ensures
        take_line(f, line).first_user_message == user_message_of(line),
{
    reveal_strlit("session_meta");
    reveal_strlit("event_msg");
    reveal_strlit("response_item");
    assert("event_msg"@.len() != "session_meta"@.len());
    assert("response_item"@.len() != "session_meta"@.len());
    assert("response_item"@.len() != "event_msg"@.len());
}

proof fn lemma_first_user_message(lines: Seq<Seq<u8>>)
    requires
        read_lines_spec(lines) is Ok,
    ensures
        (forall|i: int| 0 <= i < lines.len() ==> user_message_of(#[trigger] lines[i]) is None)
            ==> read_lines_spec(lines)->Ok_0.first_user_message is None,
        forall|w: int|
            0 <= w < lines.len() && user_message_of(#[trigger] lines[w]) is Some && (forall|j: int|
                0 <= j < w ==> user_message_of(#[trigger] lines[j]) is None) ==> read_lines_spec(
                lines,
            )->Ok_0.first_user_message == user_message_of(lines[w]),
    decreases lines.len(),
{
    if lines.len() > 0 {
        let init = lines.drop_last();
        let last = lines.len() - 1;
        lemma_first_user_message(init);
        assert forall|i: int| 0 <= i < init.len() implies #[trigger] init[i] == lines[i] by {}
        let f = read_lines_spec(init)->Ok_0;
        assert(read_lines_spec(lines)->Ok_0 == take_line(f, lines[last]));
        if f.first_user_message is Some {
            law_first_user_message_stays(f, lines[last]);
            assert forall|w: int|
                0 <= w < lines.len() && user_message_of(#[trigger] lines[w]) is Some && (forall|
                    j: int,
                | 0 <= j < w ==> user_message_of(#[trigger] lines[j]) is None) implies read_lines_spec(
                lines,
            )->Ok_0.first_user_message == user_message_of(lines[w]) by {
                if w == last {
                    if init.len() > 0 && (forall|i: int| 0 <= i < init.len() ==> user_message_of(
                        #[trigger] init[i],
                    ) is None) {
                    } else {
                        let v = choose|v: int|
                            0 <= v < init.len() && user_message_of(#[trigger] init[v]) is Some;
                        assert(init[v] == lines[v]);
                        assert(user_message_of(lines[v]) is None);
                    }
                } else {
                    assert(init[w] == lines[w]);
                    assert forall|j: int| 0 <= j < w implies user_message_of(#[trigger] init[j]) is None by {
                        assert(init[j] == lines[j]);
                    }
                }
            }
            assert(!(forall|i: int| 0 <= i < init.len() ==> user_message_of(#[trigger] init[i]) is None));
            if forall|i: int| 0 <= i < lines.len() ==> user_message_of(#[trigger] lines[i]) is None {
                let v = choose|v: int|
                    0 <= v < init.len() && user_message_of(#[trigger] init[v]) is Some;
                assert(init[v] == lines[v]);
            }
        } else {
            lemma_take_line_user_message(f, lines[last]);
            assert forall|w: int|
                0 <= w < lines.len() && user_message_of(#[trigger] lines[w]) is Some && (forall|
                    j: int,
                | 0 <= j < w ==> user_message_of(#[trigger] lines[j]) is None) implies read_lines_spec(
                lines,
            )->Ok_0.first_user_message == user_message_of(lines[w]) by {
                if w < last {
                    assert(init[w] == lines[w]);
                    assert forall|j: int| 0 <= j < w implies user_message_of(#[trigger] init[j]) is None by {
                        assert(init[j] == lines[j]);
                    }
                }
            }
            if forall|i: int| 0 <= i < lines.len() ==> user_message_of(#[trigger] lines[i]) is None {
                assert forall|i: int| 0 <= i < init.len() implies user_message_of(#[trigger] init[i]) is None by {
                    assert(init[i] == lines[i]);
                }
                assert(user_message_of(lines[last]) is None);
            }
        }
    }
}

/// The first user message of a rollout is the one of its earliest line
/// that carries a user message; later user messages never replace it.
pub proof fn law_first_user_message_wins(content: Seq<u8>)
    requires
        read_lines_spec(reader_lines(content)) is Ok,
    ensures
        ({
            let lines = reader_lines(content);
            let found = read_lines_spec(lines)->Ok_0;
            &&& (forall|i: int| 0 <= i < lines.len() ==> user_message_of(#[trigger] lines[i]) is None)
                ==> found.first_user_message is None
            &&& forall|w: int|
                0 <= w < lines.len() && user_message_of(#[trigger] lines[w]) is Some && (forall|
                    j: int,
                | 0 <= j < w ==> user_message_of(#[trigger] lines[j]) is None)
                    ==> found.first_user_message == user_message_of(lines[w])
        }),
{
    lemma_first_user_message(reader_lines(content));
}

} // verus!
