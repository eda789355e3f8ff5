//! The HTML transcript of a thread: the conversation that a rollout records,
//! without the context that Codex injects, as one self-contained page.
use crate::json::{
    json_keys, json_keys_at, json_kind, json_kind_at, json_len, json_len_at, json_text,
    json_text_at, JsonKind,
};
use crate::model::ScannedThread;
use crate::path_mapper::{char_is_alphanumeric, is_alphanumeric};
use crate::sqlite_adapter::{decimal, push_decimal};
use vstd::utf8::{encode_utf8, is_char_boundary};
use crate::text::{
    chars_of, contains_seq, extend_chars, extend_str, is_white_space, occurs_at, occurs_at_exec,
    starts_with, str_contains, str_starts_with, string_of, sub_chars, trim, trim_chars, trim_end,
    trim_start,
};
use vstd::prelude::*;

verus! {

/// What an HTML export wrote.
#[derive(Debug, Clone)]
pub struct HtmlExportSummary {
    pub exported: usize,
    pub files: Vec<String>,
}

// ---------------------------------------------------------------------------
// Text

/// The HTML text of one character.
pub open spec fn escape_char(c: char) -> Seq<char> {
    if c == '&' {
        "&amp;"@
    } else if c == '<' {
        "&lt;"@
    } else if c == '>' {
        "&gt;"@
    } else if c == '"' {
        "&quot;"@
    } else {
        seq![c]
    }
}

/// `s` with `&`, `<`, `>` and `"` written as character references.
pub open spec fn escape_spec(s: Seq<char>) -> Seq<char>
    decreases s.len(),
{
    if s.len() == 0 {
        seq![]
    } else {
        escape_spec(s.drop_last()) + escape_char(s.last())
    }
}

/// `value` escaped for HTML text and attribute values (see [`escape_spec`]).
pub fn html_escape(value: &str) -> (out: String)
    ensures
        out@ == escape_spec(value@),
{
    let v = chars_of(value);
    let mut out: Vec<char> = Vec::new();
    let mut i: usize = 0;
    while i < v.len()
        invariant
            i <= v@.len(),
            v@ == value@,
            out@ == escape_spec(v@.take(i as int)),
        decreases v@.len() - i,
    {
        assert(v@.take(i + 1).drop_last() =~= v@.take(i as int));
        assert(v@.take(i + 1).last() == v@[i as int]);
        let c = v[i];
        if c == '&' {
            extend_str(&mut out, "&amp;");
        } else if c == '<' {
            extend_str(&mut out, "&lt;");
        } else if c == '>' {
            extend_str(&mut out, "&gt;");
        } else if c == '"' {
            extend_str(&mut out, "&quot;");
        } else {
            out.push(c);
        }
        i += 1;
    }
    assert(v@.take(i as int) =~= v@);
    string_of(out.as_slice())
}

/// `value` trimmed, unless nothing is left.
pub open spec fn clean_text_spec(value: Seq<char>) -> Option<Seq<char>> {
    if trim(value).len() == 0 {
        None
    } else {
        Some(trim(value))
    }
}

/// `value` without surrounding white space, or `None` when that is all.
pub fn clean_text(value: &str) -> (r: Option<String>)
    ensures
        match r {
            Some(s) => clean_text_spec(value@) == Some(s@),
            None => clean_text_spec(value@) is None,
        },
{
    let t = crate::text::trim_str(value);
    if t.len() == 0 {
        None
    } else {
        Some(string_of(t.as_slice()))
    }
}

/// The last position, below `n`, at which `m` occurs in `s`.
pub open spec fn last_before(s: Seq<char>, m: Seq<char>, n: nat) -> Option<int>
    decreases n,
{
    if n == 0 {
        None
    } else if occurs_at(s, m, n - 1) {
        Some(n - 1)
    } else {
        last_before(s, m, (n - 1) as nat)
    }
}

/// The last position at which `m` occurs in `s` (`str::rfind`).
pub open spec fn last_occurrence(s: Seq<char>, m: Seq<char>) -> Option<int> {
    last_before(s, m, s.len() + 1)
}

/// What follows the last occurrence of `m` in `s` (`str::rsplit_once`).
pub open spec fn after_last(s: Seq<char>, m: Seq<char>) -> Option<Seq<char>> {
    match last_occurrence(s, m) {
        Some(i) => Some(s.skip(i + m.len())),
        None => None,
    }
}

fn after_last_exec(s: &[char], m: &str) -> (r: Option<Vec<char>>)
    ensures
        match r {
            Some(v) => after_last(s@, m@) == Some(v@),
            None => after_last(s@, m@) is None,
        },
{
    let mv = chars_of(m);
    let mut n: usize = s.len();
    loop
        invariant
            n <= s@.len(),
            mv@ == m@,
            last_before(s@, m@, (s@.len() + 1) as nat) == last_before(s@, m@, (n + 1) as nat),
        decreases n,
    {
        if occurs_at_exec(s, mv.as_slice(), n) {
            assert(occurs_at(s@, mv@, n as int));
            assert(n + mv@.len() <= s@.len() && s@.len() == s.len() && mv@.len() == mv.len());
            let from = n + mv.len();
            return Some(sub_chars(s, from, s.len()));
        }
        if n == 0 {
            assert(last_before(s@, m@, 0) is None);
            return None;
        }
        n -= 1;
    }
}

/// The marker after which a message states the user's actual request.
pub open spec fn request_marker() -> Seq<char> {
    "## My request for Codex:"@
}

/// The shorter form of [`request_marker`].
pub open spec fn short_request_marker() -> Seq<char> {
    "## My request:"@
}

/// A user message that only carries context that Codex injected.
pub open spec fn is_injected_context(trimmed: Seq<char>) -> bool {
    ||| starts_with(trimmed, "# AGENTS.md instructions"@)
    ||| starts_with(trimmed, "<environment_context>"@)
    ||| starts_with(trimmed, "<permissions instructions>"@)
}

/// What a user message shows: the request after the last request marker
/// when there is one; nothing for injected context; else the message,
/// trimmed, unless it is blank.
pub open spec fn clean_user_message_spec(value: Seq<char>) -> Option<Seq<char>> {
    match after_last(value, request_marker()) {
        Some(request) => clean_text_spec(request),
        None => match after_last(value, short_request_marker()) {
            Some(request) => clean_text_spec(request),
            None => if is_injected_context(trim(value)) {
                None
            } else {
                clean_text_spec(trim(value))
            },
        },
    }
}

/// The text of a user message as the transcript shows it (see
/// [`clean_user_message_spec`]).
pub fn clean_user_message(value: &str) -> (r: Option<String>)
    ensures
        match r {
            Some(s) => clean_user_message_spec(value@) == Some(s@),
            None => clean_user_message_spec(value@) is None,
        },
{
    let v = chars_of(value);
    match after_last_exec(v.as_slice(), "## My request for Codex:") {
        Some(request) => {
            return clean_text(string_of(request.as_slice()).as_str());
        },
        None => {},
    }
    match after_last_exec(v.as_slice(), "## My request:") {
        Some(request) => {
            return clean_text(string_of(request.as_slice()).as_str());
        },
        None => {},
    }
    let t = string_of(trim_chars(v.as_slice()).as_slice());
    if str_starts_with(t.as_str(), "# AGENTS.md instructions") || str_starts_with(
        t.as_str(),
        "<environment_context>",
    ) || str_starts_with(t.as_str(), "<permissions instructions>") {
        return None;
    }
    clean_text(t.as_str())
}

/// Whether a value is an image embedded as base64 data.
pub open spec fn is_embeddable_spec(value: Seq<char>) -> bool {
    starts_with(value, "data:image/"@) && contains_seq(value, ";base64,"@)
}

/// Whether `value` is an image embedded as base64 data, which the page can
/// show without fetching anything.
pub fn is_embeddable_image(value: &str) -> (r: bool)
    ensures
        r == is_embeddable_spec(value@),
{
    str_starts_with(value, "data:image/") && str_contains(value, ";base64,")
}

/// A file-name character: alphanumerics, `-`, `_` and space stay, anything
/// else becomes `_`.
pub open spec fn name_safe_char(c: char) -> char {
    if char_is_alphanumeric(c) || c == '-' || c == '_' || c == ' ' {
        c
    } else {
        '_'
    }
}

/// The file name that a title gives: `Codex-session` for a blank title, its
/// characters made file-safe, at most 80 of them.
pub open spec fn safe_name_spec(value: Seq<char>) -> Seq<char> {
    let v = if trim(value).len() == 0 {
        "Codex-session"@
    } else {
        value
    };
    let cleaned = v.map_values(|c: char| name_safe_char(c));
    if cleaned.len() <= 80 {
        cleaned
    } else {
        cleaned.take(80)
    }
}

/// The file name that a title gives (see [`safe_name_spec`]).
pub fn safe_name(value: &str) -> (out: String)
    ensures
        out@ == safe_name_spec(value@),
{
    let t = crate::text::trim_str(value);
    let v = if t.len() == 0 {
        chars_of("Codex-session")
    } else {
        chars_of(value)
    };
    let mut out: Vec<char> = Vec::new();
    let mut i: usize = 0;
    while i < v.len() && i < 80
        invariant
            i <= v@.len(),
            i <= 80,
            out@ == v@.take(i as int).map_values(|c: char| name_safe_char(c)),
        decreases v@.len() - i,
    {
        let c = v[i];
        let kept = if is_alphanumeric(c) || c == '-' || c == '_' || c == ' ' {
            c
        } else {
            '_'
        };
        out.push(kept);
        assert(v@.take(i + 1).map_values(|c: char| name_safe_char(c)) =~= v@.take(i as int).map_values(
            |c: char| name_safe_char(c),
        ).push(name_safe_char(c)));
        i += 1;
    }
    proof {
        let cleaned = v@.map_values(|c: char| name_safe_char(c));
        if v@.len() <= 80 {
            assert(v@.take(i as int) =~= v@);
        } else {
            assert(v@.take(80).map_values(|c: char| name_safe_char(c)) =~= cleaned.take(80));
        }
    }
    string_of(out.as_slice())
}

// ---------------------------------------------------------------------------
// Images embedded in tool output

/// A JSON Pointer reference token for an object key (`~` as `~0`, `/` as
/// `~1`).
pub open spec fn pointer_token(key: Seq<char>) -> Seq<char>
    decreases key.len(),
{
    if key.len() == 0 {
        seq![]
    } else {
        pointer_token(key.drop_last()) + (if key.last() == '~' {
            "~0"@
        } else if key.last() == '/' {
            "~1"@
        } else {
            seq![key.last()]
        })
    }
}

/// The pointer to element `i` of the array at `ptr`.
pub open spec fn element_ptr(ptr: Seq<char>, i: nat) -> Seq<char> {
    ptr.push('/') + decimal(i)
}

/// The pointer to member `key` of the object at `ptr`.
pub open spec fn member_ptr(ptr: Seq<char>, key: Seq<char>) -> Seq<char> {
    ptr.push('/') + pointer_token(key)
}

/// The embedded images that the value at `ptr` in `doc` holds: a string
/// that is one; the images in a string that is itself a JSON text; those in
/// the elements of an array and the member values of an object, in order.
///
/// Every step down goes one level deeper into a JSON text, or into a string
/// that a JSON text holds, so no walk is longer than the text that it starts
/// from: `fuel`, that length, never runs out.
pub open spec fn embedded_in(doc: Seq<u8>, ptr: Seq<char>, fuel: nat) -> Seq<Seq<char>>
    decreases fuel, 1nat, 0nat,
{
    if fuel == 0 {
        seq![]
    } else {
        match json_text_at(doc, ptr) {
            Some(Some(s)) => if is_embeddable_spec(s) {
                seq![s]
            } else if json_kind_at(encode_utf8(s), ""@) is Some {
                embedded_in(encode_utf8(s), ""@, (fuel - 1) as nat)
            } else {
                seq![]
            },
            _ => match json_kind_at(doc, ptr) {
                Some(Some(JsonKind::Array)) => match json_len_at(doc, ptr) {
                    Some(Some(n)) => embedded_in_elements(doc, ptr, n as nat, (fuel - 1) as nat),
                    _ => seq![],
                },
                Some(Some(JsonKind::Object)) => match json_keys_at(doc, ptr) {
                    Some(Some(keys)) => embedded_in_members(doc, ptr, keys, (fuel - 1) as nat),
                    _ => seq![],
                },
                _ => seq![],
            },
        }
    }
}

/// The embedded images in the first `n` elements of the array at `ptr`.
pub open spec fn embedded_in_elements(doc: Seq<u8>, ptr: Seq<char>, n: nat, fuel: nat) -> Seq<
    Seq<char>,
>
    decreases fuel, 2nat, n,
{
    if n == 0 {
        seq![]
    } else {
        embedded_in_elements(doc, ptr, (n - 1) as nat, fuel) + embedded_in(
            doc,
            element_ptr(ptr, (n - 1) as nat),
            fuel,
        )
    }
}

/// The embedded images in the values of the members `keys` of the object at
/// `ptr`.
pub open spec fn embedded_in_members(
    doc: Seq<u8>,
    ptr: Seq<char>,
    keys: Seq<Seq<char>>,
    fuel: nat,
) -> Seq<Seq<char>>
    decreases fuel, 2nat, keys.len(),
{
    if keys.len() == 0 {
        seq![]
    } else {
        embedded_in_members(doc, ptr, keys.drop_last(), fuel) + embedded_in(
            doc,
            member_ptr(ptr, keys.last()),
            fuel,
        )
    }
}

fn push_pointer_token(out: &mut Vec<char>, key: &str)
    ensures
        final(out)@ == old(out)@ + pointer_token(key@),
{
    let k = chars_of(key);
    let ghost start = out@;
    let mut i: usize = 0;
    while i < k.len()
        invariant
            i <= k@.len(),
            k@ == key@,
            out@ == start + pointer_token(k@.take(i as int)),
        decreases k@.len() - i,
    {
        assert(k@.take(i + 1).drop_last() =~= k@.take(i as int));
        assert(k@.take(i + 1).last() == k@[i as int]);
        let c = k[i];
        if c == '~' {
            extend_str(out, "~0");
        } else if c == '/' {
            extend_str(out, "~1");
        } else {
            out.push(c);
        }
        assert(out@ =~= start + pointer_token(k@.take(i + 1)));
        i += 1;
    }
    assert(k@.take(i as int) =~= k@);
}

fn element_pointer(ptr: &str, i: usize) -> (p: String)
    ensures
        p@ == element_ptr(ptr@, i as nat),
{
    let mut out = chars_of(ptr);
    out.push('/');
    push_decimal(&mut out, i);
    assert(out@ =~= element_ptr(ptr@, i as nat));
    string_of(out.as_slice())
}

fn member_pointer(ptr: &str, key: &str) -> (p: String)
    ensures
        p@ == member_ptr(ptr@, key@),
{
    let mut out = chars_of(ptr);
    out.push('/');
    push_pointer_token(&mut out, key);
    assert(out@ =~= member_ptr(ptr@, key@));
    string_of(out.as_slice())
}

fn collect_embedded(doc: &[u8], ptr: &str, fuel: usize, images: &mut Vec<String>)
    ensures
        crate::text::views(final(images)@) == crate::text::views(old(images)@) + embedded_in(
            doc@,
            ptr@,
            fuel as nat,
        ),
    decreases fuel, 1nat, 0nat,
{
    if fuel == 0 {
        return;
    }
    match json_text(doc, ptr) {
        Some(Some(s)) => {
            if is_embeddable_image(s.as_str()) {
                proof {
                    crate::text::lemma_views_push(images@, s);
                }
                images.push(s);
            } else {
                let bytes = s.as_str().as_bytes();
                if json_kind(bytes, "").is_some() {
                    collect_embedded(bytes, "", fuel - 1, images);
                }
            }
            return;
        },
        _ => {},
    }
    match json_kind(doc, ptr) {
        Some(Some(JsonKind::Array)) => {
            match json_len(doc, ptr) {
                Some(Some(n)) => {
                    collect_elements(doc, ptr, n, fuel - 1, images);
                },
                _ => {},
            }
        },
        Some(Some(JsonKind::Object)) => {
            match json_keys(doc, ptr) {
                Some(Some(keys)) => {
                    collect_members(doc, ptr, keys.as_slice(), fuel - 1, images);
                },
                _ => {},
            }
        },
        _ => {},
    }
}

fn collect_elements(doc: &[u8], ptr: &str, n: usize, fuel: usize, images: &mut Vec<String>)
    ensures
        crate::text::views(final(images)@) == crate::text::views(old(images)@)
            + embedded_in_elements(doc@, ptr@, n as nat, fuel as nat),
    decreases fuel, 2nat, n,
{
    if n == 0 {
        return;
    }
    collect_elements(doc, ptr, n - 1, fuel, images);
    let p = element_pointer(ptr, n - 1);
    let ghost mid = crate::text::views(images@);
    collect_embedded(doc, p.as_str(), fuel, images);
    assert(crate::text::views(images@) =~= crate::text::views(old(images)@)
        + embedded_in_elements(doc@, ptr@, n as nat, fuel as nat));
}

fn collect_members(doc: &[u8], ptr: &str, keys: &[String], fuel: usize, images: &mut Vec<String>)
    ensures
        crate::text::views(final(images)@) == crate::text::views(old(images)@)
            + embedded_in_members(doc@, ptr@, crate::text::views(keys@), fuel as nat),
    decreases fuel, 2nat, keys@.len(),
{
    if keys.len() == 0 {
        return;
    }
    let last = keys.len() - 1;
    let (front, _) = keys.split_at(last);
    assert(crate::text::views(front@) =~= crate::text::views(keys@).drop_last());
    collect_members(doc, ptr, front, fuel, images);
    let p = member_pointer(ptr, keys[last].as_str());
    collect_embedded(doc, p.as_str(), fuel, images);
    assert(crate::text::views(images@) =~= crate::text::views(old(images)@)
        + embedded_in_members(doc@, ptr@, crate::text::views(keys@), fuel as nat));
}

// ---------------------------------------------------------------------------
// The conversation

/// One entry of the transcript: a message, or the screenshots of a tool.
#[derive(Debug, Clone)]
pub struct ChatEntry {
    pub role: String,
    pub text: Option<String>,
    pub images: Vec<String>,
    pub tool_output: bool,
}

/// An entry by the views of its strings: role, text, images, tool output.
pub open spec fn chat_view(e: ChatEntry) -> (Seq<char>, Option<Seq<char>>, Seq<Seq<char>>, bool) {
    (e.role@, crate::json::opt_chars(e.text), crate::text::views(e.images@), e.tool_output)
}

/// The entries so far and the images shown so far.
pub type ChatState = (Seq<(Seq<char>, Option<Seq<char>>, Seq<Seq<char>>, bool)>, Seq<Seq<char>>);

/// Some value is at `ptr`.
pub open spec fn present_at(line: Seq<u8>, ptr: Seq<char>) -> bool {
    json_kind_at(line, ptr) matches Some(Some(_))
}

/// The string at `ptr`, if the value there is one.
pub open spec fn string_at(line: Seq<u8>, ptr: Seq<char>) -> Option<Seq<char>> {
    match json_text_at(line, ptr) {
        Some(Some(s)) => Some(s),
        _ => None,
    }
}

/// The pointer to content item `k` of a message.
pub open spec fn content_ptr(k: nat) -> Seq<char> {
    element_ptr("/payload/content"@, k)
}

/// The text of a content item: its first member among `text`, `input_text`
/// and `output_text`, if that is a string.
pub open spec fn item_text(line: Seq<u8>, item: Seq<char>) -> Option<Seq<char>> {
    if present_at(line, item + "/text"@) {
        string_at(line, item + "/text"@)
    } else if present_at(line, item + "/input_text"@) {
        string_at(line, item + "/input_text"@)
    } else if present_at(line, item + "/output_text"@) {
        string_at(line, item + "/output_text"@)
    } else {
        None
    }
}

/// The texts of the first `n` content items, in order.
pub open spec fn item_texts(line: Seq<u8>, n: nat) -> Seq<Seq<char>>
    decreases n,
{
    if n == 0 {
        seq![]
    } else {
        let rest = item_texts(line, (n - 1) as nat);
        match item_text(line, content_ptr((n - 1) as nat)) {
            Some(t) => rest.push(t),
            None => rest,
        }
    }
}

/// The image URLs of the first `n` content items, in order.
pub open spec fn item_urls(line: Seq<u8>, n: nat) -> Seq<Seq<char>>
    decreases n,
{
    if n == 0 {
        seq![]
    } else {
        let rest = item_urls(line, (n - 1) as nat);
        match string_at(line, content_ptr((n - 1) as nat) + "/image_url"@) {
            Some(u) => rest.push(u),
            None => rest,
        }
    }
}

/// The parts joined by line breaks.
pub open spec fn join_lines(parts: Seq<Seq<char>>) -> Seq<char>
    decreases parts.len(),
{
    if parts.len() == 0 {
        seq![]
    } else if parts.len() == 1 {
        parts[0]
    } else {
        join_lines(parts.drop_last()).push('\n') + parts.last()
    }
}

/// The embedded images among `urls` that were not shown before, each once,
/// and the images shown after them.
pub open spec fn fresh_images(urls: Seq<Seq<char>>, seen: Seq<Seq<char>>) -> (
    Seq<Seq<char>>,
    Seq<Seq<char>>,
)
    decreases urls.len(),
{
    if urls.len() == 0 {
        (seq![], seen)
    } else {
        let (kept, shown) = fresh_images(urls.drop_last(), seen);
        let u = urls.last();
        if is_embeddable_spec(u) && !shown.contains(u) {
            (kept.push(u), shown.push(u))
        } else {
            (kept, shown)
        }
    }
}

/// The number of content items of a message.
pub open spec fn content_len(line: Seq<u8>) -> nat {
    match json_len_at(line, "/payload/content"@) {
        Some(Some(n)) => n as nat,
        _ => 0,
    }
}

/// What a parsed rollout line adds to the transcript: a user or assistant
/// message, with its text cleaned and its new images, unless it shows
/// nothing or the same entry is there already; the new images of a tool
/// output; nothing for any other line.
pub open spec fn take_chat_line(st: ChatState, line: Seq<u8>) -> ChatState {
    let (messages, seen) = st;
    if string_at(line, "/type"@) != Some("response_item"@) {
        st
    } else if string_at(line, "/payload/type"@) == Some("message"@) {
        match string_at(line, "/payload/role"@) {
            Some(role) => if role == "user"@ || role == "assistant"@ {
                let n = content_len(line);
                let joined = join_lines(item_texts(line, n));
                let text = if role == "user"@ {
                    clean_user_message_spec(joined)
                } else {
                    clean_text_spec(joined)
                };
                let (images, shown) = fresh_images(item_urls(line, n), seen);
                let entry = (role, text, images, false);
                if (text is None && images.len() == 0) || messages.contains(entry) {
                    (messages, shown)
                } else {
                    (messages.push(entry), shown)
                }
            } else {
                st
            },
            None => st,
        }
    } else if string_at(line, "/payload/type"@) == Some("function_call_output"@) {
        let (images, shown) = fresh_images(
            embedded_in(line, "/payload/output"@, line.len()),
            seen,
        );
        if images.len() == 0 {
            (messages, shown)
        } else {
            (messages.push(("assistant"@, None, images, true)), shown)
        }
    } else {
        st
    }
}

/// The transcript of the lines of a rollout, or the number (from 1) of the
/// first non-empty line that is not JSON.
pub open spec fn chat_lines(lines: Seq<Seq<u8>>) -> Result<ChatState, nat>
    decreases lines.len(),
{
    if lines.len() == 0 {
        Ok((seq![], seq![]))
    } else {
        match chat_lines(lines.drop_last()) {
            Err(n) => Err(n),
            Ok(st) => {
                let line = lines.last();
                if line.len() == 0 {
                    Ok(st)
                } else if json_kind_at(line, ""@) is None {
                    Err(lines.len())
                } else {
                    Ok(take_chat_line(st, line))
                }
            },
        }
    }
}

/// The views of the entries.
pub open spec fn entries_view(v: Seq<ChatEntry>) -> Seq<(Seq<char>, Option<Seq<char>>, Seq<Seq<char>>, bool)> {
    v.map_values(|e: ChatEntry| chat_view(e))
}

fn concat(base: &str, suffix: &str) -> (p: String)
    ensures
        p@ == base@ + suffix@,
{
    let mut out = chars_of(base);
    extend_str(&mut out, suffix);
    string_of(out.as_slice())
}

fn string_in(line: &[u8], ptr: &str) -> (r: Option<String>)
    ensures
        crate::json::opt_chars(r) == string_at(line@, ptr@),
{
    match json_text(line, ptr) {
        Some(Some(s)) => Some(s),
        _ => None,
    }
}

fn is_present(line: &[u8], ptr: &str) -> (r: bool)
    ensures
        r == present_at(line@, ptr@),
{
    match json_kind(line, ptr) {
        Some(Some(_)) => true,
        _ => false,
    }
}

fn item_text_exec(line: &[u8], item: &str) -> (r: Option<String>)
    ensures
        crate::json::opt_chars(r) == item_text(line@, item@),
{
    let p = concat(item, "/text");
    if is_present(line, p.as_str()) {
        return string_in(line, p.as_str());
    }
    let p = concat(item, "/input_text");
    if is_present(line, p.as_str()) {
        return string_in(line, p.as_str());
    }
    let p = concat(item, "/output_text");
    if is_present(line, p.as_str()) {
        return string_in(line, p.as_str());
    }
    None
}

fn item_texts_exec(line: &[u8], n: usize) -> (v: Vec<String>)
    ensures
        crate::text::views(v@) == item_texts(line@, n as nat),
{
    let mut v: Vec<String> = Vec::new();
    let mut k: usize = 0;
    while k < n
        invariant
            k <= n,
            crate::text::views(v@) == item_texts(line@, k as nat),
        decreases n - k,
    {
        let item = element_pointer("/payload/content", k);
        match item_text_exec(line, item.as_str()) {
            Some(t) => {
                proof {
                    crate::text::lemma_views_push(v@, t);
                }
                v.push(t);
            },
            None => {},
        }
        k += 1;
    }
    v
}

fn item_urls_exec(line: &[u8], n: usize) -> (v: Vec<String>)
    ensures
        crate::text::views(v@) == item_urls(line@, n as nat),
{
    let mut v: Vec<String> = Vec::new();
    let mut k: usize = 0;
    while k < n
        invariant
            k <= n,
            crate::text::views(v@) == item_urls(line@, k as nat),
        decreases n - k,
    {
        let item = element_pointer("/payload/content", k);
        let p = concat(item.as_str(), "/image_url");
        match string_in(line, p.as_str()) {
            Some(u) => {
                proof {
                    crate::text::lemma_views_push(v@, u);
                }
                v.push(u);
            },
            None => {},
        }
        k += 1;
    }
    v
}

fn join_lines_exec(parts: &[String]) -> (s: String)
    ensures
        s@ == join_lines(crate::text::views(parts@)),
{
    let mut out: Vec<char> = Vec::new();
    let mut i: usize = 0;
    while i < parts.len()
        invariant
            i <= parts@.len(),
            out@ == join_lines(crate::text::views(parts@.take(i as int))),
        decreases parts@.len() - i,
    {
        assert(crate::text::views(parts@.take(i + 1)).drop_last() =~= crate::text::views(
            parts@.take(i as int),
        ));
        if i > 0 {
            out.push('\n');
        } else {
            assert(out@ =~= seq![]);
        }
        extend_str(&mut out, parts[i].as_str());
        i += 1;
    }
    assert(parts@.take(i as int) =~= parts@);
    string_of(out.as_slice())
}

fn is_shown(seen: &[String], u: &str) -> (r: bool)
    ensures
        r == crate::text::views(seen@).contains(u@),
{
    let mut i: usize = 0;
    while i < seen.len()
        invariant
            i <= seen@.len(),
            forall|k: int| 0 <= k < i ==> seen@[k]@ != u@,
        decreases seen@.len() - i,
    {
        if crate::text::str_equal(seen[i].as_str(), u) {
            assert(crate::text::views(seen@)[i as int] == u@);
            return true;
        }
        i += 1;
    }
    false
}

fn fresh_images_exec(urls: &[String], seen: &mut Vec<String>) -> (kept: Vec<String>)
    ensures
        (crate::text::views(kept@), crate::text::views(final(seen)@)) == fresh_images(
            crate::text::views(urls@),
            crate::text::views(old(seen)@),
        ),
{
    let mut kept: Vec<String> = Vec::new();
    let mut i: usize = 0;
    while i < urls.len()
        invariant
            i <= urls@.len(),
            (crate::text::views(kept@), crate::text::views(seen@)) == fresh_images(
                crate::text::views(urls@.take(i as int)),
                crate::text::views(old(seen)@),
            ),
        decreases urls@.len() - i,
    {
        assert(crate::text::views(urls@.take(i + 1)).drop_last() =~= crate::text::views(
            urls@.take(i as int),
        ));
        let u = &urls[i];
        if is_embeddable_image(u.as_str()) && !is_shown(seen.as_slice(), u.as_str()) {
            proof {
                crate::text::lemma_views_push(kept@, urls@[i as int]);
                crate::text::lemma_views_push(seen@, urls@[i as int]);
            }
            kept.push(u.clone());
            seen.push(u.clone());
        }
        i += 1;
    }
    assert(urls@.take(i as int) =~= urls@);
    kept
}

fn same_strings(a: &[String], b: &[String]) -> (r: bool)
    ensures
        r == (crate::text::views(a@) == crate::text::views(b@)),
{
    if a.len() != b.len() {
        assert(crate::text::views(a@).len() != crate::text::views(b@).len());
        return false;
    }
    let mut i: usize = 0;
    while i < a.len()
        invariant
            i <= a@.len(),
            a@.len() == b@.len(),
            forall|k: int| 0 <= k < i ==> a@[k]@ == b@[k]@,
        decreases a@.len() - i,
    {
        if !crate::text::str_equal(a[i].as_str(), b[i].as_str()) {
            assert(crate::text::views(a@)[i as int] != crate::text::views(b@)[i as int]);
            return false;
        }
        i += 1;
    }
    assert(crate::text::views(a@) =~= crate::text::views(b@));
    true
}

fn same_entry(a: &ChatEntry, b: &ChatEntry) -> (r: bool)
    ensures
        r == (chat_view(*a) == chat_view(*b)),
{
    if !crate::text::str_equal(a.role.as_str(), b.role.as_str()) || a.tool_output != b.tool_output {
        return false;
    }
    let same_text = match (&a.text, &b.text) {
        (Some(x), Some(y)) => crate::text::str_equal(x.as_str(), y.as_str()),
        (None, None) => true,
        _ => false,
    };
    same_text && same_strings(a.images.as_slice(), b.images.as_slice())
}

fn has_entry(list: &[ChatEntry], e: &ChatEntry) -> (r: bool)
    ensures
        r == entries_view(list@).contains(chat_view(*e)),
{
    let mut i: usize = 0;
    while i < list.len()
        invariant
            i <= list@.len(),
            forall|k: int| 0 <= k < i ==> chat_view(list@[k]) != chat_view(*e),
        decreases list@.len() - i,
    {
        if same_entry(&list[i], e) {
            assert(entries_view(list@)[i as int] == chat_view(*e));
            return true;
        }
        i += 1;
    }
    false
}

fn push_entry(messages: &mut Vec<ChatEntry>, e: ChatEntry)
    ensures
        entries_view(final(messages)@) == entries_view(old(messages)@).push(chat_view(e)),
{
    messages.push(e);
    assert(entries_view(messages@) =~= entries_view(old(messages)@).push(chat_view(e)));
}

fn take_line(messages: &mut Vec<ChatEntry>, seen: &mut Vec<String>, line: &[u8])
    ensures
        (entries_view(final(messages)@), crate::text::views(final(seen)@)) == take_chat_line(
            (entries_view(old(messages)@), crate::text::views(old(seen)@)),
            line@,
        ),
{
    let kind = string_in(line, "/type");
    let is_item = match &kind {
        Some(k) => crate::text::str_equal(k.as_str(), "response_item"),
        None => false,
    };
    if !is_item {
        return;
    }
    let payload_type = string_in(line, "/payload/type");
    let (is_message, is_tool) = match &payload_type {
        Some(t) => (
            crate::text::str_equal(t.as_str(), "message"),
            crate::text::str_equal(t.as_str(), "function_call_output"),
        ),
        None => (false, false),
    };
    if is_message {
        let role = match string_in(line, "/payload/role") {
            Some(r) => r,
            None => {
                return;
            },
        };
        let is_user = crate::text::str_equal(role.as_str(), "user");
        if !is_user && !crate::text::str_equal(role.as_str(), "assistant") {
            return;
        }
        let n = match json_len(line, "/payload/content") {
            Some(Some(n)) => n,
            _ => 0,
        };
        let parts = item_texts_exec(line, n);
        let joined = join_lines_exec(parts.as_slice());
        let text = if is_user {
            clean_user_message(joined.as_str())
        } else {
            clean_text(joined.as_str())
        };
        let urls = item_urls_exec(line, n);
        let images = fresh_images_exec(urls.as_slice(), seen);
        if text.is_none() && images.len() == 0 {
            return;
        }
        let entry = ChatEntry { role, text, images, tool_output: false };
        if has_entry(messages.as_slice(), &entry) {
            return;
        }
        push_entry(messages, entry);
    } else if is_tool {
        let mut found: Vec<String> = Vec::new();
        collect_embedded(line, "/payload/output", line.len(), &mut found);
        assert(crate::text::views(found@) =~= embedded_in(line@, "/payload/output"@, line@.len()));
        let images = fresh_images_exec(found.as_slice(), seen);
        if images.len() == 0 {
            return;
        }
        push_entry(
            messages,
            ChatEntry { role: "assistant".to_owned(), text: None, images, tool_output: true },
        );
    }
}

proof fn lemma_chat_error_stays(lines: Seq<Seq<u8>>, j: int)
    requires
        0 <= j <= lines.len(),
        chat_lines(lines.take(j)) is Err,
    ensures
        chat_lines(lines) == chat_lines(lines.take(j)),
    decreases lines.len() - j,
{
    if j < lines.len() {
        assert(lines.take(j + 1).drop_last() =~= lines.take(j));
        lemma_chat_error_stays(lines, j + 1);
    } else {
        assert(lines.take(j) =~= lines);
    }
}

/// The entries of the transcript of a rollout (see [`chat_lines`]), or the
/// number of its first line that is not JSON.
pub fn chat_entries(content: &[u8]) -> (r: Result<Vec<ChatEntry>, usize>)
    ensures
        match r {
            Ok(v) => chat_lines(crate::rollout::split_on(content@, 10u8)) matches Ok(st) && st.0
                == entries_view(v@),
            Err(n) => chat_lines(crate::rollout::split_on(content@, 10u8)) == Err::<ChatState, nat>(
                n as nat,
            ),
        },
{
    let lines = crate::rollout::split_bytes(content, 10u8);
    let ghost all = crate::rollout::bytes_view(lines@);
    let mut messages: Vec<ChatEntry> = Vec::new();
    let mut seen: Vec<String> = Vec::new();
    let mut k: usize = 0;
    assert(entries_view(messages@) =~= seq![]);
    assert(crate::text::views(seen@) =~= seq![]);
    assert(all.take(0) =~= seq![]);
    while k < lines.len()
        invariant
            k <= lines@.len(),
            all == crate::rollout::bytes_view(lines@),
            all == crate::rollout::split_on(content@, 10u8),
            chat_lines(all.take(k as int)) == Ok::<ChatState, nat>(
                (entries_view(messages@), crate::text::views(seen@)),
            ),
        decreases lines@.len() - k,
    {
        assert(all.take(k + 1).drop_last() =~= all.take(k as int));
        assert(all.take(k + 1).last() == lines@[k as int]@);
        let line = lines[k].as_slice();
        if line.len() > 0 {
            if json_kind(line, "").is_none() {
                proof {
                    lemma_chat_error_stays(all, k + 1);
                }
                return Err(k + 1);
            }
            take_line(&mut messages, &mut seen, line);
        }
        k += 1;
    }
    assert(all.take(k as int) =~= all);
    Ok(messages)
}

// ---------------------------------------------------------------------------
// The page

/// The page up to its title.
pub open spec fn page_head() -> Seq<char> {
    "<!doctype html>\n<html lang=\"en\"><head><meta charset=\"utf-8\"><meta name=\"viewport\" content=\"width=device-width,initial-scale=1\">\n<title>"@
}

/// The page from its title to its body: the style sheet.
pub open spec fn page_style() -> Seq<char> {
    "</title><style>\n"@
        + ":root{--bg:#f6f7f4;--surface:#fff;--text:#272d30;--muted:#687276;--accent:#1f6f68;--border:#dcDEda}\n"@
        + "*{box-sizing:border-box} body{margin:0;background:var(--bg);color:var(--text);font:15px/1.65 -apple-system,BlinkMacSystemFont,\"Segoe UI\",sans-serif}\n"@
        + "main{max-width:980px;margin:0 auto;padding:40px 24px 80px;display:flex;flex-direction:column;gap:14px}\n"@
        + ".message{padding:14px 17px} .message.assistant{align-self:stretch;width:100%;background:transparent;padding-left:0;padding-right:0}\n"@
        + ".message.user{max-width:72%;align-self:flex-end;background:#e5f1ee;border:1px solid #c9dfda;border-radius:14px;border-top-right-radius:5px;box-shadow:0 1px 2px rgba(20,30,30,.03)}\n"@
        + ".message.tool{padding-top:4px;padding-bottom:4px} .message.tool .role{color:var(--muted)}\n"@
        + ".role{font-weight:650;color:var(--accent);font-size:12px;margin-bottom:6px} .message.user .role{text-align:right} .content{white-space:normal;word-break:break-word}\n"@
        + ".images{display:flex;flex-direction:column;gap:10px} .content + .images:not(:empty){margin-top:12px}\n"@
        + ".chat-image{display:block;max-width:100%;height:auto;border:1px solid var(--border);border-radius:10px;background:var(--surface)}\n"@
        + "@media(max-width:640px){main{padding:20px 12px 48px}.message.user{max-width:90%}}\n"@
        + "</style></head><body><main>"@
}

/// The page after its body.
pub open spec fn page_tail() -> Seq<char> {
    "</main></body></html>"@
}

/// Message text as markup: escaped, with line breaks as `<br>`.
pub open spec fn text_markup(s: Seq<char>) -> Seq<char>
    decreases s.len(),
{
    if s.len() == 0 {
        seq![]
    } else {
        text_markup(s.drop_last()) + (if s.last() == '\n' {
            "<br>"@
        } else {
            escape_char(s.last())
        })
    }
}

/// The markup of one image.
pub open spec fn image_markup(url: Seq<char>) -> Seq<char> {
    "<img class=\"chat-image\" src=\""@ + escape_spec(url) + "\" alt=\"Chat image\" loading=\"lazy\">"@
}

/// The markup of the images, in order.
pub open spec fn images_markup(urls: Seq<Seq<char>>) -> Seq<char>
    decreases urls.len(),
{
    if urls.len() == 0 {
        seq![]
    } else {
        images_markup(urls.drop_last()) + image_markup(urls.last())
    }
}

/// The opening of an entry: its class and its label.
pub open spec fn entry_head(role: Seq<char>, tool: bool) -> Seq<char> {
    let label = if tool {
        "Tool"@
    } else if role == "user"@ {
        "You"@
    } else {
        "Codex"@
    };
    let tool_class = if tool {
        " tool"@
    } else {
        seq![]
    };
    "<article class=\"message "@ + role + tool_class + "\"><div class=\"role\">"@ + label + "</div>"@
}

/// The text of an entry, if it has one.
pub open spec fn entry_text(text: Option<Seq<char>>) -> Seq<char> {
    match text {
        Some(t) => "<div class=\"content\">"@ + text_markup(t) + "</div>"@,
        None => seq![],
    }
}

/// The images of an entry, and its end.
pub open spec fn entry_images(images: Seq<Seq<char>>) -> Seq<char> {
    "<div class=\"images\">"@ + images_markup(images) + "</div></article>"@
}

/// The markup of one entry of the transcript.
pub open spec fn entry_markup(e: (Seq<char>, Option<Seq<char>>, Seq<Seq<char>>, bool)) -> Seq<char> {
    entry_head(e.0, e.3) + entry_text(e.1) + entry_images(e.2)
}

/// The markup of the entries, in order.
pub open spec fn body_markup(entries: Seq<(Seq<char>, Option<Seq<char>>, Seq<Seq<char>>, bool)>) -> Seq<
    char,
>
    decreases entries.len(),
{
    if entries.len() == 0 {
        seq![]
    } else {
        body_markup(entries.drop_last()) + entry_markup(entries.last())
    }
}

/// The transcript page of a thread: titled by the thread's title (its id
/// when the title is empty), with the entries of its rollout; or the number
/// of the first line of the rollout that is not JSON.
pub open spec fn render_spec(thread: ScannedThread) -> Result<Seq<char>, nat> {
    match chat_lines(crate::rollout::split_on(thread.content@, 10u8)) {
        Err(n) => Err(n),
        Ok(st) => {
            let title = if thread.record.title@.len() == 0 {
                thread.record.id@
            } else {
                thread.record.title@
            };
            Ok(page_head() + escape_spec(title) + page_style() + body_markup(st.0) + page_tail())
        },
    }
}

fn push_style(out: &mut Vec<char>)
    ensures
        final(out)@ == old(out)@ + page_style(),
{
    extend_str(out, "</title><style>\n");
    extend_str(out, ":root{--bg:#f6f7f4;--surface:#fff;--text:#272d30;--muted:#687276;--accent:#1f6f68;--border:#dcDEda}\n");
    extend_str(out, "*{box-sizing:border-box} body{margin:0;background:var(--bg);color:var(--text);font:15px/1.65 -apple-system,BlinkMacSystemFont,\"Segoe UI\",sans-serif}\n");
    extend_str(out, "main{max-width:980px;margin:0 auto;padding:40px 24px 80px;display:flex;flex-direction:column;gap:14px}\n");
    extend_str(out, ".message{padding:14px 17px} .message.assistant{align-self:stretch;width:100%;background:transparent;padding-left:0;padding-right:0}\n");
    extend_str(out, ".message.user{max-width:72%;align-self:flex-end;background:#e5f1ee;border:1px solid #c9dfda;border-radius:14px;border-top-right-radius:5px;box-shadow:0 1px 2px rgba(20,30,30,.03)}\n");
    extend_str(out, ".message.tool{padding-top:4px;padding-bottom:4px} .message.tool .role{color:var(--muted)}\n");
    extend_str(out, ".role{font-weight:650;color:var(--accent);font-size:12px;margin-bottom:6px} .message.user .role{text-align:right} .content{white-space:normal;word-break:break-word}\n");
    extend_str(out, ".images{display:flex;flex-direction:column;gap:10px} .content + .images:not(:empty){margin-top:12px}\n");
    extend_str(out, ".chat-image{display:block;max-width:100%;height:auto;border:1px solid var(--border);border-radius:10px;background:var(--surface)}\n");
    extend_str(out, "@media(max-width:640px){main{padding:20px 12px 48px}.message.user{max-width:90%}}\n");
    extend_str(out, "</style></head><body><main>");
    assert(out@ =~= old(out)@ + page_style());
}

fn push_text_markup(out: &mut Vec<char>, s: &str)
    ensures
        final(out)@ == old(out)@ + text_markup(s@),
{
    let v = chars_of(s);
    let ghost start = out@;
    let mut i: usize = 0;
    while i < v.len()
        invariant
            i <= v@.len(),
            v@ == s@,
            out@ == start + text_markup(v@.take(i as int)),
        decreases v@.len() - i,
    {
        assert(v@.take(i + 1).drop_last() =~= v@.take(i as int));
        assert(v@.take(i + 1).last() == v@[i as int]);
        let c = v[i];
        if c == '\n' {
            extend_str(out, "<br>");
        } else if c == '&' {
            extend_str(out, "&amp;");
        } else if c == '<' {
            extend_str(out, "&lt;");
        } else if c == '>' {
            extend_str(out, "&gt;");
        } else if c == '"' {
            extend_str(out, "&quot;");
        } else {
            out.push(c);
        }
        assert(out@ =~= start + text_markup(v@.take(i + 1)));
        i += 1;
    }
    assert(v@.take(i as int) =~= v@);
}

fn push_entry_head(out: &mut Vec<char>, e: &ChatEntry)
    ensures
        final(out)@ == old(out)@ + entry_head(e.role@, e.tool_output),
{
    let ghost start = out@;
    extend_str(out, "<article class=\"message ");
    extend_str(out, e.role.as_str());
    if e.tool_output {
        extend_str(out, " tool");
    }
    extend_str(out, "\"><div class=\"role\">");
    if e.tool_output {
        extend_str(out, "Tool");
    } else if crate::text::str_equal(e.role.as_str(), "user") {
        extend_str(out, "You");
    } else {
        extend_str(out, "Codex");
    }
    extend_str(out, "</div>");
    assert(out@ =~= start + entry_head(e.role@, e.tool_output));
}

fn push_entry_text(out: &mut Vec<char>, e: &ChatEntry)
    ensures
        final(out)@ == old(out)@ + entry_text(crate::json::opt_chars(e.text)),
{
    let ghost start = out@;
    match &e.text {
        Some(t) => {
            extend_str(out, "<div class=\"content\">");
            push_text_markup(out, t.as_str());
            extend_str(out, "</div>");
            assert(out@ =~= start + entry_text(crate::json::opt_chars(e.text)));
        },
        None => {
            assert(out@ =~= start + entry_text(crate::json::opt_chars(e.text)));
        },
    }
}

fn push_entry_images(out: &mut Vec<char>, e: &ChatEntry)
    ensures
        final(out)@ == old(out)@ + entry_images(crate::text::views(e.images@)),
{
    let ghost start = out@;
    extend_str(out, "<div class=\"images\">");
    let ghost before_images = out@;
    let mut i: usize = 0;
    assert(images_markup(crate::text::views(e.images@.take(0))) =~= seq![]);
    while i < e.images.len()
        invariant
            i <= e.images@.len(),
            out@ == before_images + images_markup(crate::text::views(e.images@.take(i as int))),
        decreases e.images@.len() - i,
    {
        assert(crate::text::views(e.images@.take(i + 1)).drop_last() =~= crate::text::views(
            e.images@.take(i as int),
        ));
        extend_str(out, "<img class=\"chat-image\" src=\"");
        let escaped = html_escape(e.images[i].as_str());
        extend_str(out, escaped.as_str());
        extend_str(out, "\" alt=\"Chat image\" loading=\"lazy\">");
        assert(out@ =~= before_images + images_markup(crate::text::views(e.images@.take(i + 1))));
        i += 1;
    }
    assert(e.images@.take(i as int) =~= e.images@);
    extend_str(out, "</div></article>");
    assert(out@ =~= start + entry_images(crate::text::views(e.images@)));
}

fn push_entry_markup(out: &mut Vec<char>, e: &ChatEntry)
    ensures
        final(out)@ == old(out)@ + entry_markup(chat_view(*e)),
{
    let ghost start = out@;
    push_entry_head(out, e);
    push_entry_text(out, e);
    push_entry_images(out, e);
    assert(out@ =~= start + entry_markup(chat_view(*e)));
}

/// Why a transcript could not be made.
#[derive(Debug, Clone, PartialEq, Eq)]
pub enum RenderError {
    /// This line (counted from 1) of the rollout at this path is not JSON.
    InvalidLine(usize, String),
}

/// The message of a rendering error.
pub open spec fn render_message(e: RenderError) -> Seq<char> {
    match e {
        RenderError::InvalidLine(n, path) => "parse line "@ + decimal(n as nat) + " in "@ + path@,
    }
}

impl RenderError {
    /// The message shown to the user.
    pub fn message(&self) -> (s: String)
        ensures
            s@ == render_message(*self),
    {
        match self {
            RenderError::InvalidLine(n, path) => {
                let mut out: Vec<char> = Vec::new();
                extend_str(&mut out, "parse line ");
                push_decimal(&mut out, *n);
                extend_str(&mut out, " in ");
                extend_str(&mut out, path.as_str());
                assert(out@ =~= render_message(*self));
                string_of(out.as_slice())
            },
        }
    }
}

/// The transcript page of a thread (see [`render_spec`]).
pub fn render_thread(thread: &ScannedThread) -> (r: Result<String, RenderError>)
    ensures
        match r {
            Ok(page) => render_spec(*thread) == Ok::<Seq<char>, nat>(page@),
            Err(RenderError::InvalidLine(n, path)) => render_spec(*thread) == Err::<Seq<char>, nat>(
                n as nat,
            ) && path@ == thread.source_path@,
        },
{
    let entries = match chat_entries(thread.content.as_slice()) {
        Ok(entries) => entries,
        Err(n) => {
            return Err(RenderError::InvalidLine(n, thread.source_path.clone()));
        },
    };
    let mut out: Vec<char> = Vec::new();
    extend_str(
        &mut out,
        "<!doctype html>\n<html lang=\"en\"><head><meta charset=\"utf-8\"><meta name=\"viewport\" content=\"width=device-width,initial-scale=1\">\n<title>",
    );
    let title = if thread.record.title.as_str().is_empty() {
        html_escape(thread.record.id.as_str())
    } else {
        html_escape(thread.record.title.as_str())
    };
    extend_str(&mut out, title.as_str());
    push_style(&mut out);
    let ghost before_body = out@;
    let mut i: usize = 0;
    while i < entries.len()
        invariant
            i <= entries@.len(),
            out@ == before_body + body_markup(entries_view(entries@.take(i as int))),
        decreases entries@.len() - i,
    {
        assert(entries_view(entries@.take(i + 1)).drop_last() =~= entries_view(entries@.take(i as int)));
        push_entry_markup(&mut out, &entries[i]);
        assert(out@ =~= before_body + body_markup(entries_view(entries@.take(i + 1))));
        i += 1;
    }
    assert(entries@.take(i as int) =~= entries@);
    extend_str(&mut out, "</main></body></html>");
    Ok(string_of(out.as_slice()))
}

// ---------------------------------------------------------------------------
// Export

/// Why a thread could not be exported.
#[derive(Debug, Clone, PartialEq, Eq)]
pub enum HtmlExportError {
    /// The thread's project folder does not exist here.
    MissingProject(String),
    /// The thread's rollout could not be read.
    Render(RenderError),
}

impl HtmlExportError {
    /// The message shown to the user.
    pub fn message(&self) -> (s: String)
        ensures
            s@ == match self {
                HtmlExportError::MissingProject(cwd) => "project folder does not exist for HTML export: "@
                    + cwd@,
                HtmlExportError::Render(e) => render_message(*e),
            },
    {
        match self {
            HtmlExportError::MissingProject(cwd) => {
                let mut out: Vec<char> = Vec::new();
                extend_str(&mut out, "project folder does not exist for HTML export: ");
                extend_str(&mut out, cwd.as_str());
                string_of(out.as_slice())
            },
            HtmlExportError::Render(e) => e.message(),
        }
    }
}

/// One page to write: the folder it goes in, its path, and its text.
#[derive(Debug, Clone)]
pub struct ExportFile {
    pub directory: String,
    pub path: String,
    pub html: String,
}

/// The indices of the threads whose id is selected, in order.
pub fn selected_for_export(threads: &[ScannedThread], selected_ids: &[String]) -> (picked: Vec<usize>)
    ensures
        forall|i: int| 0 <= i < picked@.len() ==> picked@[i] < threads@.len(),
        forall|i: int, j: int| 0 <= i < j < picked@.len() ==> picked@[i] < picked@[j],
        forall|k: int|
            0 <= k < threads@.len() ==> (picked@.contains(k as usize) <==> crate::text::has_key(
                selected_ids@,
                (#[trigger] threads@[k]).record.id@,
            )),
{
    let mut picked: Vec<usize> = Vec::new();
    let mut k: usize = 0;
    while k < threads.len()
        invariant
            k <= threads@.len(),
            forall|i: int| 0 <= i < picked@.len() ==> picked@[i] < k,
            forall|i: int, j: int| 0 <= i < j < picked@.len() ==> picked@[i] < picked@[j],
            forall|m: int|
                0 <= m < k ==> (picked@.contains(m as usize) <==> crate::text::has_key(
                    selected_ids@,
                    (#[trigger] threads@[m]).record.id@,
                )),
        decreases threads@.len() - k,
    {
        let ghost before = picked@;
        if crate::session_index::contains_id(selected_ids, threads[k].record.id.as_str()) {
            picked.push(k);
            proof {
                assert(picked@[before.len() as int] == k);
                assert forall|m: int| 0 <= m < k implies (#[trigger] picked@.contains(m as usize)
                    <==> before.contains(m as usize)) by {
                    if picked@.contains(m as usize) {
                        let w = choose|w: int| 0 <= w < picked@.len() && picked@[w] == m as usize;
                        if w < before.len() {
                            assert(before[w] == m as usize);
                        }
                    }
                    if before.contains(m as usize) {
                        let w = choose|w: int| 0 <= w < before.len() && before[w] == m as usize;
                        assert(picked@[w] == m as usize);
                    }
                }
            }
        } else {
            proof {
                assert(!before.contains(k)) by {
                    if before.contains(k) {
                        let w = choose|w: int| 0 <= w < before.len() && before[w] == k;
                    }
                }
            }
        }
        k += 1;
    }
    picked
}

/// The file name of the page of a thread: its title made file-safe, `-`,
/// and the first eight bytes of its id (the whole id when shorter).
pub open spec fn page_name(title: Seq<char>, id_prefix: Seq<char>) -> Seq<char> {
    safe_name_spec(title) + "-"@ + id_prefix + ".html"@
}

/// The first `min(8, len)` bytes of the id, as characters.
pub open spec fn is_id_prefix(p: Seq<char>, id: Seq<char>) -> bool {
    let n = if encode_utf8(id).len() < 8 {
        encode_utf8(id).len()
    } else {
        8
    };
    encode_utf8(p) == encode_utf8(id).subrange(0, n as int)
}

/// What exporting one thread gives: with its project folder present here,
/// its page in `output_root` (else in the project's `Codex_sessions`
/// folder), named by its title and the first eight bytes of its id; else
/// why not.
pub open spec fn export_outcome(
    r: Result<ExportFile, HtmlExportError>,
    thread: ScannedThread,
    output_root: Option<Seq<char>>,
    project_exists: bool,
) -> bool {
    match r {
        Ok(file) => {
            &&& project_exists
            &&& file.directory@ == match output_root {
                Some(root) => root,
                None => crate::path_mapper::join_spec(thread.record.cwd@, "Codex_sessions"@),
            }
            &&& exists|p: Seq<char>|
                is_id_prefix(p, thread.record.id@) && file.path@ == crate::path_mapper::join_spec(
                    file.directory@,
                    page_name(thread.record.title@, p),
                )
            &&& render_spec(thread) == Ok::<Seq<char>, nat>(file.html@)
        },
        Err(HtmlExportError::MissingProject(cwd)) => !project_exists && cwd@ == thread.record.cwd@,
        Err(HtmlExportError::Render(RenderError::InvalidLine(n, path))) => project_exists
            && render_spec(thread) == Err::<Seq<char>, nat>(n as nat) && path@ == thread.source_path@,
    }
}

/// The id's first eight bytes end on a character boundary, so that they can
/// name the page.
pub open spec fn id_cut_ok(id: Seq<char>) -> bool {
    &&& encode_utf8(id).len() <= usize::MAX
    &&& is_char_boundary(
        encode_utf8(id),
        if encode_utf8(id).len() < 8 {
            encode_utf8(id).len() as int
        } else {
            8
        },
    )
}

/// The page of a selected thread and where it goes: in `output_root` when
/// one was chosen, else in the `Codex_sessions` folder of the thread's
/// project, which must exist.
///
/// The first eight bytes of the id name the file, so they must end on a
/// character boundary.
pub fn export_file(thread: &ScannedThread, output_root: Option<&str>, project_exists: bool) -> (r:
    Result<ExportFile, HtmlExportError>)
    requires
        encode_utf8(thread.record.id@).len() <= usize::MAX,
        is_char_boundary(
            encode_utf8(thread.record.id@),
            if encode_utf8(thread.record.id@).len() < 8 {
                encode_utf8(thread.record.id@).len() as int
            } else {
                8
            },
        ),
    ensures
        export_outcome(
            r,
            *thread,
            match output_root {
                Some(root) => Some(root@),
                None => None,
            },
            project_exists,
        ),
{
    if !project_exists {
        return Err(HtmlExportError::MissingProject(thread.record.cwd.clone()));
    }
    let directory = match output_root {
        Some(root) => root.to_owned(),
        None => crate::path_mapper::join_path(thread.record.cwd.as_str(), "Codex_sessions"),
    };
    let id = thread.record.id.as_str();
    let n = if id.len() < 8 {
        id.len()
    } else {
        8
    };
    let (prefix, _) = id.split_at(n);
    let mut name = chars_of(safe_name(thread.record.title.as_str()).as_str());
    extend_str(&mut name, "-");
    extend_str(&mut name, prefix);
    extend_str(&mut name, ".html");
    let name = string_of(name.as_slice());
    let path = crate::path_mapper::join_path(directory.as_str(), name.as_str());
    assert(is_id_prefix(prefix@, thread.record.id@));
    let html = match render_thread(thread) {
        Ok(html) => html,
        Err(e) => {
            return Err(HtmlExportError::Render(e));
        },
    };
    Ok(ExportFile { directory, path, html })
}

/// `picked` are the indices of the selected threads, ascending.
pub open spec fn export_selection(
    picked: Seq<usize>,
    threads: Seq<ScannedThread>,
    selected_ids: Seq<String>,
) -> bool {
    &&& forall|i: int| 0 <= i < picked.len() ==> picked[i] < threads.len()
    &&& forall|i: int, j: int| 0 <= i < j < picked.len() ==> picked[i] < picked[j]
    &&& forall|k: int|
        0 <= k < threads.len() ==> (picked.contains(k as usize) <==> crate::text::has_key(
            selected_ids,
            (#[trigger] threads[k]).record.id@,
        ))
}

/// How many of the threads are selected.
pub open spec fn selected_count(threads: Seq<ScannedThread>, selected_ids: Seq<String>) -> nat
    decreases threads.len(),
{
    if threads.len() == 0 {
        0
    } else {
        selected_count(threads.drop_last(), selected_ids) + if crate::text::has_key(
            selected_ids,
            threads.last().record.id@,
        ) {
            1nat
        } else {
            0nat
        }
    }
}

/// The indices of the selected threads, ascending, are as many as the
/// selected threads.
proof fn lemma_selection_count(picked: Seq<usize>, threads: Seq<ScannedThread>, selected_ids: Seq<String>)
    requires
        export_selection(picked, threads, selected_ids),
        threads.len() <= usize::MAX,
    ensures
        picked.len() == selected_count(threads, selected_ids),
    decreases threads.len(),
{
    if threads.len() == 0 {
        if picked.len() > 0 {
            assert(picked[0] < threads.len());
        }
    } else {
        let n = threads.len() - 1;
        let init = threads.drop_last();
        assert forall|k: int| 0 <= k < init.len() implies #[trigger] init[k] == threads[k] by {}
        if crate::text::has_key(selected_ids, threads[n].record.id@) {
            assert(picked.contains(n as usize));
            let w = choose|w: int| 0 <= w < picked.len() && picked[w] == n as usize;
            let last = picked.len() - 1;
            if w < last {
                assert(picked[w] < picked[last]);
                assert(picked[last] < threads.len());
            }
            assert(picked[last] == n as usize);
            let rest = picked.drop_last();
            assert forall|i: int| 0 <= i < rest.len() implies rest[i] < init.len() by {
                assert(rest[i] == picked[i]);
                assert(picked[i] < picked[last]);
            }
            assert forall|k: int| 0 <= k < init.len() implies (rest.contains(k as usize)
                <==> crate::text::has_key(selected_ids, (#[trigger] init[k]).record.id@)) by {
                assert(init[k] == threads[k]);
                if rest.contains(k as usize) {
                    let v = choose|v: int| 0 <= v < rest.len() && rest[v] == k as usize;
                    assert(picked[v] == k as usize);
                }
                if picked.contains(k as usize) {
                    let v = choose|v: int| 0 <= v < picked.len() && picked[v] == k as usize;
                    assert(v != last);
                    assert(rest[v] == k as usize);
                }
            }
            lemma_selection_count(rest, init, selected_ids);
        } else {
            assert forall|i: int| 0 <= i < picked.len() implies picked[i] < init.len() by {
                if picked[i] == n {
                    assert(picked.contains(n as usize));
                }
            }
            assert forall|k: int| 0 <= k < init.len() implies (picked.contains(k as usize)
                <==> crate::text::has_key(selected_ids, (#[trigger] init[k]).record.id@)) by {
                assert(init[k] == threads[k]);
            }
            lemma_selection_count(picked, init, selected_ids);
        }
    }
}

/// The pages of the selected threads, in scan order (see
/// [`export_outcome`]), one per selected thread; the first thread that
/// cannot be exported stops the export with its error.
///
/// `present_dirs` are the project folders that exist on this device.
pub fn export_pages(
    threads: &[ScannedThread],
    selected_ids: &[String],
    output_root: Option<&str>,
    present_dirs: &[String],
) -> (r: Result<Vec<ExportFile>, HtmlExportError>)
    requires
        forall|k: int|
            0 <= k < threads@.len() && crate::text::has_key(
                selected_ids@,
                (#[trigger] threads@[k]).record.id@,
            ) ==> id_cut_ok(threads@[k].record.id@),
    ensures
        exists|picked: Seq<usize>|
            {
                &&& #[trigger] export_selection(picked, threads@, selected_ids@)
                &&& match r {
                    Ok(files) => files@.len() == picked.len() && files@.len() == selected_count(
                        threads@,
                        selected_ids@,
                    ) && forall|i: int|
                        0 <= i < picked.len() ==> export_outcome(
                            Ok::<ExportFile, HtmlExportError>(#[trigger] files@[i]),
                            threads@[picked[i] as int],
                            match output_root {
                                Some(root) => Some(root@),
                                None => None,
                            },
                            crate::merge::has_string(
                                present_dirs@,
                                threads@[picked[i] as int].record.cwd@,
                            ),
                        ),
                    Err(e) => exists|i: int|
                        0 <= i < picked.len() && export_outcome(
                            Err::<ExportFile, HtmlExportError>(e),
                            threads@[picked[i] as int],
                            match output_root {
                                Some(root) => Some(root@),
                                None => None,
                            },
                            crate::merge::has_string(
                                present_dirs@,
                                threads@[picked[i] as int].record.cwd@,
                            ),
                        ) && forall|m: int|
                            0 <= m < i ==> exists|f: ExportFile|
                                export_outcome(
                                    Ok::<ExportFile, HtmlExportError>(f),
                                    #[trigger] threads@[picked[m] as int],
                                    match output_root {
                                        Some(root) => Some(root@),
                                        None => None,
                                    },
                                    crate::merge::has_string(
                                        present_dirs@,
                                        threads@[picked[m] as int].record.cwd@,
                                    ),
                                ),
                }
            },
{
    let picked = selected_for_export(threads, selected_ids);
    assert(export_selection(picked@, threads@, selected_ids@));
    let ghost root = match output_root {
        Some(root) => Some(root@),
        None => None::<Seq<char>>,
    };
    let mut files: Vec<ExportFile> = Vec::new();
    let mut i: usize = 0;
    while i < picked.len()
        invariant
            i <= picked@.len(),
            files@.len() == i,
            export_selection(picked@, threads@, selected_ids@),
            forall|m: int| 0 <= m < picked@.len() ==> picked@[m] < threads@.len(),
            forall|k: int|
                0 <= k < threads@.len() ==> (picked@.contains(k as usize) <==> crate::text::has_key(
                    selected_ids@,
                    (#[trigger] threads@[k]).record.id@,
                )),
            forall|k: int|
                0 <= k < threads@.len() && crate::text::has_key(
                    selected_ids@,
                    (#[trigger] threads@[k]).record.id@,
                ) ==> id_cut_ok(threads@[k].record.id@),
            root == match output_root {
                Some(root) => Some(root@),
                None => None::<Seq<char>>,
            },
            forall|m: int|
                0 <= m < i ==> export_outcome(
                    Ok::<ExportFile, HtmlExportError>(#[trigger] files@[m]),
                    threads@[picked@[m] as int],
                    root,
                    crate::merge::has_string(present_dirs@, threads@[picked@[m] as int].record.cwd@),
                ),
        decreases picked@.len() - i,
    {
        let k = picked[i];
        let thread = &threads[k];
        assert(picked@.contains(k));
        assert(id_cut_ok(threads@[k as int].record.id@));
        let here = crate::merge::contains_string(present_dirs, thread.record.cwd.as_str());
        match export_file(thread, output_root, here) {
            Ok(file) => {
                files.push(file);
            },
            Err(e) => {
                proof {
                    let ii = i as int;
                    assert forall|m: int| 0 <= m < ii implies exists|f: ExportFile|
                        export_outcome(
                            Ok::<ExportFile, HtmlExportError>(f),
                            #[trigger] threads@[picked@[m] as int],
                            root,
                            crate::merge::has_string(present_dirs@, threads@[picked@[m] as int].record.cwd@),
                        ) by {
                        assert(export_outcome(
                            Ok::<ExportFile, HtmlExportError>(files@[m]),
                            threads@[picked@[m] as int],
                            root,
                            crate::merge::has_string(present_dirs@, threads@[picked@[m] as int].record.cwd@),
                        ));
                    }
                    assert(export_outcome(
                        Err::<ExportFile, HtmlExportError>(e),
                        threads@[picked@[ii] as int],
                        root,
                        crate::merge::has_string(present_dirs@, threads@[picked@[ii] as int].record.cwd@),
                    ));
                }
                return Err(e);
            },
        }
        i += 1;
    }
    assert(files@.len() == picked@.len());
    let total: usize = threads.len();
    proof {
        assert(threads@.len() == total);
        lemma_selection_count(picked@, threads@, selected_ids@);
    }
    Ok(files)
}

/// Escaped text holds no `<`, `>` or `"`, so it cannot open or close a tag
/// or an attribute value.
pub proof fn law_escaped_text_is_inert(s: Seq<char>)
    ensures
        !escape_spec(s).contains('<'),
        !escape_spec(s).contains('>'),
        !escape_spec(s).contains('"'),
    decreases s.len(),
{
    if s.len() > 0 {
        law_escaped_text_is_inert(s.drop_last());
        let head = escape_spec(s.drop_last());
        let tail = escape_char(s.last());
        reveal_strlit("&amp;");
        reveal_strlit("&lt;");
        reveal_strlit("&gt;");
        reveal_strlit("&quot;");
        assert forall|c: char| c == '<' || c == '>' || c == '"' implies !(head + tail).contains(c) by {
            if (head + tail).contains(c) {
                let i = choose|i: int| 0 <= i < (head + tail).len() && (head + tail)[i] == c;
                if i < head.len() {
                    assert(head[i] == c);
                } else {
                    assert(tail[i - head.len()] == c);
                }
            }
        }
    }
}

proof fn lemma_no_occurrence(s: Seq<char>, m: Seq<char>, n: nat)
    requires
        !contains_seq(s, m),
    ensures
        last_before(s, m, n) is None,
    decreases n,
{
    if n > 0 {
        assert(!occurs_at(s, m, n - 1));
        lemma_no_occurrence(s, m, (n - 1) as nat);
    }
}

/// A user message that carries no request marker and only context that
/// Codex injected (its AGENTS.md instructions, the environment context or
/// the permissions instructions) shows nothing in the transcript.
pub proof fn law_injected_context_is_hidden(value: Seq<char>)
    requires
        !contains_seq(value, "## My request for Codex:"@),
        !contains_seq(value, "## My request:"@),
        starts_with(trim(value), "# AGENTS.md instructions"@) || starts_with(
            trim(value),
            "<environment_context>"@,
        ) || starts_with(trim(value), "<permissions instructions>"@),
    ensures
        clean_user_message_spec(value) is None,
{
    lemma_no_occurrence(value, request_marker(), value.len() + 1);
    lemma_no_occurrence(value, short_request_marker(), value.len() + 1);
}

proof fn lemma_trim_start_shape(x: Seq<char>)
    ensures
        trim_start(x).len() > 0 ==> !is_white_space(trim_start(x)[0]),
    decreases x.len(),
{
    if x.len() > 0 && is_white_space(x[0]) {
        lemma_trim_start_shape(x.drop_first());
    }
}

proof fn lemma_trim_end_shape(x: Seq<char>)
    ensures
        trim_end(x).len() <= x.len(),
        trim_end(x) == x.take(trim_end(x).len() as int),
        trim_end(x).len() > 0 ==> !is_white_space(trim_end(x).last()),
    decreases x.len(),
{
    if x.len() > 0 && is_white_space(x.last()) {
        lemma_trim_end_shape(x.drop_last());
        assert(x.drop_last().take(trim_end(x).len() as int) =~= x.take(trim_end(x).len() as int));
    } else {
        assert(x.take(x.len() as int) =~= x);
    }
}

/// Trimming twice trims no more than once.
proof fn lemma_trim_twice(s: Seq<char>)
    ensures
        trim(trim(s)) == trim(s),
{
    let a = trim_start(s);
    let t = trim_end(a);
    lemma_trim_start_shape(s);
    lemma_trim_end_shape(a);
    if t.len() > 0 {
        assert(t[0] == a[0]);
        assert(trim_start(t) == t);
        assert(trim_end(t) == t);
    } else {
        assert(trim_start(t) == t);
        assert(trim_end(t) == t);
    }
}

/// A user message without a request marker that is not injected context
/// shows its text, trimmed, unless that is blank.
pub proof fn law_plain_message_is_shown(value: Seq<char>)
    requires
        !contains_seq(value, "## My request for Codex:"@),
        !contains_seq(value, "## My request:"@),
        !starts_with(trim(value), "# AGENTS.md instructions"@),
        !starts_with(trim(value), "<environment_context>"@),
        !starts_with(trim(value), "<permissions instructions>"@),
    ensures
        clean_user_message_spec(value) == (if trim(value).len() == 0 {
            None
        } else {
            Some(trim(value))
        }),
{
    lemma_no_occurrence(value, request_marker(), value.len() + 1);
    lemma_no_occurrence(value, short_request_marker(), value.len() + 1);
    lemma_trim_twice(value);
}

} // verus!
