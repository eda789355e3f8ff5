//! Reading and editing JSON documents through `serde_json`.
//!
//! Each function parses a document (a JSON text given as bytes) and reads or
//! edits one value in it, addressed by a JSON Pointer (RFC 6901, `""` for the
//! whole document, `/payload/cwd` for a nested field). What `serde_json`
//! computes is named, not restated: every name below is a function of its
//! arguments alone.
use serde_json::Value;
use vstd::prelude::*;
use vstd::utf8::encode_utf8;

verus! {

/// The kind of a JSON value.
#[derive(Debug, Clone, Copy, PartialEq, Eq, Structural)]
pub enum JsonKind {
    Null,
    Bool,
    Number,
    Text,
    Array,
    Object,
}

/// `None` when `doc` is not JSON; otherwise the string at `pointer`, if the
/// value there is a string.
pub uninterp spec fn json_text_at(doc: Seq<u8>, pointer: Seq<char>) -> Option<Option<Seq<char>>>;

/// `None` when `doc` is not JSON; otherwise the kind of the value at
/// `pointer`, if there is one.
pub uninterp spec fn json_kind_at(doc: Seq<u8>, pointer: Seq<char>) -> Option<Option<JsonKind>>;

/// `None` when `doc` is not JSON; otherwise the length of the array at
/// `pointer`, if the value there is an array.
pub uninterp spec fn json_len_at(doc: Seq<u8>, pointer: Seq<char>) -> Option<Option<usize>>;

/// `None` when `doc` is not JSON; otherwise the keys of the object at
/// `pointer` in the order the object holds them, if the value there is an
/// object.
pub uninterp spec fn json_keys_at(doc: Seq<u8>, pointer: Seq<char>) -> Option<
    Option<Seq<Seq<char>>>,
>;

/// `None` when `doc` is not JSON; otherwise the compact serialisation of the
/// value at `pointer`, if there is one.
pub uninterp spec fn json_compact_at(doc: Seq<u8>, pointer: Seq<char>) -> Option<Option<Seq<u8>>>;

/// The compact serialisation of `doc` after the value `value` (a JSON text)
/// is stored under `key` in the object at `pointer`; `None` when either text
/// is not JSON or the value at `pointer` is not an object.
pub uninterp spec fn json_set_at(
    doc: Seq<u8>,
    pointer: Seq<char>,
    key: Seq<char>,
    value: Seq<u8>,
) -> Option<Seq<u8>>;

/// The compact serialisation of `doc` after the string `s` is appended to
/// the array at `pointer`; `None` when `doc` is not JSON or the value at
/// `pointer` is not an array.
pub uninterp spec fn json_push_at(doc: Seq<u8>, pointer: Seq<char>, s: Seq<char>) -> Option<Seq<u8>>;

/// A lowercase hexadecimal digit, as a byte.
pub open spec fn hex_byte(n: int) -> u8 {
    if n < 10 {
        (48 + n) as u8
    } else {
        (87 + n) as u8
    }
}

/// How `serde_json` writes one character of a string: `"` and `\` behind a
/// backslash, the control characters with a short escape (`\b`, `\t`,
/// `\n`, `\f`, `\r`) as such, the other control characters as `\u00`
/// and two lowercase hexadecimal digits, and anything else as its UTF-8
/// bytes.
pub open spec fn json_escape_char(c: char) -> Seq<u8> {
    if c == '"' {
        seq![92u8, 34u8]
    } else if c == '\\' {
        seq![92u8, 92u8]
    } else if c == '\u{8}' {
        seq![92u8, 98u8]
    } else if c == '\t' {
        seq![92u8, 116u8]
    } else if c == '\n' {
        seq![92u8, 110u8]
    } else if c == '\u{c}' {
        seq![92u8, 102u8]
    } else if c == '\r' {
        seq![92u8, 114u8]
    } else if (c as int) < 32 {
        seq![92u8, 117u8, 48u8, 48u8, hex_byte(c as int / 16), hex_byte(c as int % 16)]
    } else {
        encode_utf8(seq![c])
    }
}

/// The escaped characters of a string, in order.
pub open spec fn json_escape(s: Seq<char>) -> Seq<u8>
    decreases s.len(),
{
    if s.len() == 0 {
        seq![]
    } else {
        json_escape(s.drop_last()) + json_escape_char(s.last())
    }
}

/// The JSON text of the string `s`: quoted, and escaped as `serde_json`
/// writes it.
pub open spec fn json_string_literal(s: Seq<char>) -> Seq<u8> {
    seq![34u8] + json_escape(s) + seq![34u8]
}

/// A member name that a JSON Pointer can name as it is: it holds no `/`
/// and no `~`.
pub open spec fn simple_key(key: Seq<char>) -> bool {
    !key.contains('/') && !key.contains('~')
}

pub open spec fn opt_chars(o: Option<String>) -> Option<Seq<char>> {
    match o {
        Some(s) => Some(s@),
        None => None,
    }
}

pub open spec fn opt_opt_chars(o: Option<Option<String>>) -> Option<Option<Seq<char>>> {
    match o {
        Some(x) => Some(opt_chars(x)),
        None => None,
    }
}

pub open spec fn opt_opt_bytes(o: Option<Option<Vec<u8>>>) -> Option<Option<Seq<u8>>> {
    match o {
        Some(Some(x)) => Some(Some(x@)),
        Some(None) => Some(None),
        None => None,
    }
}

pub open spec fn strings_view(v: Seq<String>) -> Seq<Seq<char>> {
    v.map_values(|s: String| s@)
}

/// `serde_json::from_slice` and `Value::pointer`, then `Value::as_str`: the
/// string at `pointer` in `doc` (see [`json_text_at`]).
#[verifier::external_body]
pub(crate) fn json_text(doc: &[u8], pointer: &str) -> (r: Option<Option<String>>)
    ensures
        opt_opt_chars(r) == json_text_at(doc@, pointer@),
{
    let value: Value = serde_json::from_slice(doc).ok()?;
    Some(value.pointer(pointer).and_then(Value::as_str).map(str::to_owned))
}

/// `serde_json::from_slice` and `Value::pointer`: the kind of the value at
/// `pointer` in `doc` (see [`json_kind_at`]).
#[verifier::external_body]
pub(crate) fn json_kind(doc: &[u8], pointer: &str) -> (r: Option<Option<JsonKind>>)
    ensures
        r == json_kind_at(doc@, pointer@),
{
    let value: Value = serde_json::from_slice(doc).ok()?;
    Some(
        value.pointer(pointer).map(|found| match found {
            Value::Null => JsonKind::Null,
            Value::Bool(_) => JsonKind::Bool,
            Value::Number(_) => JsonKind::Number,
            Value::String(_) => JsonKind::Text,
            Value::Array(_) => JsonKind::Array,
            Value::Object(_) => JsonKind::Object,
        }),
    )
}

/// `serde_json::from_slice` and `Value::pointer`, then `Value::as_array`:
/// the length of the array at `pointer` in `doc` (see [`json_len_at`]).
#[verifier::external_body]
pub(crate) fn json_len(doc: &[u8], pointer: &str) -> (r: Option<Option<usize>>)
    ensures
        r == json_len_at(doc@, pointer@),
{
    let value: Value = serde_json::from_slice(doc).ok()?;
    Some(value.pointer(pointer).and_then(Value::as_array).map(Vec::len))
}

/// `serde_json::from_slice` and `Value::pointer`, then `Value::as_object`
/// and `Map::keys`: the keys of the object at `pointer` in `doc` (see
/// [`json_keys_at`]).
#[verifier::external_body]
pub(crate) fn json_keys(doc: &[u8], pointer: &str) -> (r: Option<Option<Vec<String>>>)
    ensures
        match r {
            None => json_keys_at(doc@, pointer@) is None,
            Some(None) => json_keys_at(doc@, pointer@) == Some(None::<Seq<Seq<char>>>),
            Some(Some(keys)) => json_keys_at(doc@, pointer@) == Some(Some(strings_view(keys@))),
        },
{
    let value: Value = serde_json::from_slice(doc).ok()?;
    Some(
        value.pointer(pointer).and_then(Value::as_object).map(
            |object| object.keys().cloned().collect(),
        ),
    )
}

/// `serde_json::from_slice` and `Value::pointer`, then `serde_json::to_vec`:
/// the compact text of the value at `pointer` in `doc` (see
/// [`json_compact_at`]).
#[verifier::external_body]
pub(crate) fn json_compact(doc: &[u8], pointer: &str) -> (r: Option<Option<Vec<u8>>>)
    ensures
        opt_opt_bytes(r) == json_compact_at(doc@, pointer@),
{
    let value: Value = serde_json::from_slice(doc).ok()?;
    Some(value.pointer(pointer).and_then(|found| serde_json::to_vec(found).ok()))
}

/// `serde_json::from_slice`, `Value::pointer_mut`, `Map::insert` and
/// `serde_json::to_vec`: `doc` with `value` stored under `key` in the object
/// at `pointer` (see [`json_set_at`]).
///
/// What the source shows besides: with `doc` JSON and an object at
/// `pointer` (`{}` is one) and `value` JSON, every step succeeds
/// (serialising a `Value` cannot fail). When `value` is a string, the
/// result reads back as written: the value at `pointer` is still an
/// object, the member `key` holds that string, and every other member
/// reads as it did in `doc`. Where `value` is not a string nothing more is
/// said: a deeply nested value can make the result too deep for
/// `from_slice` to read back.
#[verifier::external_body]
pub(crate) fn json_set(doc: &[u8], pointer: &str, key: &str, value: &[u8]) -> (r: Option<Vec<u8>>)
    ensures
        match r {
            Some(bytes) => json_set_at(doc@, pointer@, key@, value@) == Some(bytes@),
            None => json_set_at(doc@, pointer@, key@, value@) is None,
        },
        (json_kind_at(doc@, pointer@) == Some(Some(JsonKind::Object)) || (doc@ == seq![
            123u8,
            125u8,
        ] && pointer@ == ""@)) && json_kind_at(value@, ""@) is Some ==> r is Some,
        forall|s: Seq<char>|
            #[trigger] json_string_literal(s) == value@ && r is Some ==> {
                &&& json_kind_at(r->0@, pointer@) == Some(Some(JsonKind::Object))
                &&& simple_key(key@) ==> json_text_at(r->0@, pointer@ + "/"@ + key@) == Some(
                    Some(s),
                )
                &&& forall|other: Seq<char>|
                    simple_key(key@) && simple_key(other) && other != key@ ==> #[trigger] json_text_at(
                        r->0@,
                        pointer@ + "/"@ + other,
                    ) == json_text_at(doc@, pointer@ + "/"@ + other)
            },
{
    let mut root: Value = serde_json::from_slice(doc).ok()?;
    let inserted: Value = serde_json::from_slice(value).ok()?;
    let object = root.pointer_mut(pointer)?.as_object_mut()?;
    object.insert(key.to_owned(), inserted);
    serde_json::to_vec(&root).ok()
}

/// `serde_json::from_slice`, `Value::pointer_mut`, `Vec::push` of a
/// `Value::String` and `serde_json::to_vec`: `doc` with `s` appended to the
/// array at `pointer` (see [`json_push_at`]).
#[verifier::external_body]
pub(crate) fn json_push(doc: &[u8], pointer: &str, s: &str) -> (r: Option<Vec<u8>>)
    ensures
        match r {
            Some(bytes) => json_push_at(doc@, pointer@, s@) == Some(bytes@),
            None => json_push_at(doc@, pointer@, s@) is None,
        },
{
    let mut root: Value = serde_json::from_slice(doc).ok()?;
    let array = root.pointer_mut(pointer)?.as_array_mut()?;
    array.push(Value::String(s.to_owned()));
    serde_json::to_vec(&root).ok()
}

/// `serde_json::to_vec` of `Value::String` (`format_escaped_str` in its
/// `ser.rs`): the JSON text of `s` (see [`json_string_literal`]), which
/// reads back as a string.
#[verifier::external_body]
pub(crate) fn json_string(s: &str) -> (r: Vec<u8>)
    ensures
        r@ == json_string_literal(s@),
        json_kind_at(r@, ""@) == Some(Some(JsonKind::Text)),
{
    serde_json::to_vec(&Value::String(s.to_owned())).unwrap_or_default()
}

} // verus!
