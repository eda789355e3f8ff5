//! The Codex Desktop state file, in which imported projects are registered
//! so that the app lists them.
use crate::html_export::element_ptr;
use crate::json::{
    json_compact, json_compact_at, json_kind, json_kind_at, json_len, json_len_at, json_push,
    json_push_at, json_set, json_set_at, json_text, json_text_at, JsonKind,
};
use crate::path_mapper::{join_path, join_spec};
use crate::sqlite_adapter::push_decimal;
use crate::text::{chars_of, extend_str, string_of};
use vstd::prelude::*;

verus! {

/// Where Codex Desktop keeps its state in a Codex home.
pub fn state_path(codex_home: &str) -> (p: String)
    ensures
        p@ == join_spec(codex_home@, ".codex-global-state.json"@),
{
    join_path(codex_home, ".codex-global-state.json")
}

/// Why the state file could not be updated.
#[derive(Debug, Clone, PartialEq, Eq)]
pub enum StateError {
    /// The state file is not JSON.
    NotJson,
}

impl StateError {
    /// The message shown to the user, for the state file at `path`.
    pub fn message(&self, path: &str) -> (s: String)
        ensures
            s@ == "parse "@ + path@,
    {
        let mut out: Vec<char> = Vec::new();
        extend_str(&mut out, "parse ");
        extend_str(&mut out, path);
        string_of(out.as_slice())
    }
}

/// The empty JSON object.
pub open spec fn empty_object() -> Seq<u8> {
    seq![123u8, 125u8]
}

/// The empty JSON array.
pub open spec fn empty_array() -> Seq<u8> {
    seq![91u8, 93u8]
}

/// `doc` with `value` stored under `key` in the object at `ptr`, when that
/// can be done.
pub open spec fn with_member(doc: Seq<u8>, ptr: Seq<char>, key: Seq<char>, value: Seq<u8>) -> Seq<u8> {
    match json_set_at(doc, ptr, key, value) {
        Some(d) => d,
        None => doc,
    }
}

/// The number of elements of the array at `ptr`.
pub open spec fn array_len(doc: Seq<u8>, ptr: Seq<char>) -> nat {
    match json_len_at(doc, ptr) {
        Some(Some(n)) => n as nat,
        _ => 0,
    }
}

/// Some of the first `n` elements of the array at `ptr` is the string `s`.
pub open spec fn has_element(doc: Seq<u8>, ptr: Seq<char>, n: nat, s: Seq<char>) -> bool {
    exists|k: nat| k < n && json_text_at(doc, #[trigger] element_ptr(ptr, k)) == Some(Some(s))
}

/// `doc` with the string `s` appended to the array at `arr`, unless one of
/// its elements already is `s`.
pub open spec fn with_project(doc: Seq<u8>, arr: Seq<char>, s: Seq<char>) -> Seq<u8> {
    if has_element(doc, arr, array_len(doc, arr), s) {
        doc
    } else {
        match json_push_at(doc, arr, s) {
            Some(d) => d,
            None => doc,
        }
    }
}

/// `doc` with each of the projects appended to the array at `arr` in turn,
/// unless it is there already.
pub open spec fn with_projects(doc: Seq<u8>, arr: Seq<char>, projects: Seq<String>) -> Seq<u8>
    decreases projects.len(),
{
    if projects.len() == 0 {
        doc
    } else {
        with_project(with_projects(doc, arr, projects.drop_last()), arr, projects.last()@)
    }
}

/// `doc` with the member `key` of the object at `ptr` made an array (an
/// empty one in place of anything else) that holds every project as a
/// string, the missing ones appended in order.
pub open spec fn register_array(doc: Seq<u8>, ptr: Seq<char>, key: Seq<char>, projects: Seq<String>) -> Seq<
    u8,
> {
    let arr = ptr + "/"@ + key;
    let base = if json_kind_at(doc, arr) == Some(Some(JsonKind::Array)) {
        doc
    } else {
        with_member(doc, ptr, key, empty_array())
    };
    with_projects(base, arr, projects)
}

/// Both project lists of the object at `ptr`.
pub open spec fn register_arrays(doc: Seq<u8>, ptr: Seq<char>, projects: Seq<String>) -> Seq<u8> {
    register_array(
        register_array(doc, ptr, "electron-saved-workspace-roots"@, projects),
        ptr,
        "project-order"@,
        projects,
    )
}

/// The state file after the projects were registered (see
/// [`register_projects`]), or why it could not be read.
pub open spec fn register_spec(existing: Option<Seq<u8>>, projects: Seq<String>) -> Result<
    Option<Seq<u8>>,
    StateError,
> {
    if projects.len() == 0 {
        Ok(None)
    } else {
        let parsed = match existing {
            Some(bytes) => if json_kind_at(bytes, ""@) is None {
                None
            } else {
                Some(bytes)
            },
            None => Some(empty_object()),
        };
        match parsed {
            None => Err(StateError::NotJson),
            Some(found) => {
                let root = if json_kind_at(found, ""@) == Some(Some(JsonKind::Object)) {
                    found
                } else {
                    empty_object()
                };
                let top = register_arrays(root, ""@, projects);
                let with_state = if json_kind_at(top, "/electron-persisted-atom-state"@) == Some(
                    Some(JsonKind::Object),
                ) {
                    top
                } else {
                    with_member(top, ""@, "electron-persisted-atom-state"@, empty_object())
                };
                let done = register_arrays(with_state, "/electron-persisted-atom-state"@, projects);
                Ok(
                    Some(
                        match json_compact_at(done, ""@) {
                            Some(Some(t)) => t,
                            _ => done,
                        },
                    ),
                )
            },
        }
    }
}

fn set(doc: Vec<u8>, ptr: &str, key: &str, value: &[u8]) -> (r: Vec<u8>)
    ensures
        r@ == with_member(doc@, ptr@, key@, value@),
{
    match json_set(doc.as_slice(), ptr, key, value) {
        Some(d) => d,
        None => doc,
    }
}

fn element_pointer(ptr: &str, k: usize) -> (p: String)
    ensures
        p@ == element_ptr(ptr@, k as nat),
{
    let mut out = chars_of(ptr);
    out.push('/');
    push_decimal(&mut out, k);
    assert(out@ =~= element_ptr(ptr@, k as nat));
    string_of(out.as_slice())
}

fn holds_string(doc: &[u8], ptr: &str, n: usize, s: &str) -> (r: bool)
    ensures
        r == has_element(doc@, ptr@, n as nat, s@),
{
    let mut k: usize = 0;
    while k < n
        invariant
            k <= n,
            forall|j: nat| j < k ==> json_text_at(doc@, #[trigger] element_ptr(ptr@, j)) != Some(
                Some(s@),
            ),
        decreases n - k,
    {
        let p = element_pointer(ptr, k);
        match json_text(doc, p.as_str()) {
            Some(Some(t)) => {
                if crate::text::str_equal(t.as_str(), s) {
                    assert(json_text_at(doc@, element_ptr(ptr@, k as nat)) == Some(Some(s@)));
                    return true;
                }
            },
            _ => {},
        }
        k += 1;
    }
    false
}

fn register_array_exec(doc: Vec<u8>, ptr: &str, key: &str, projects: &[String]) -> (r: Vec<u8>)
    ensures
        r@ == register_array(doc@, ptr@, key@, projects@),
{
    let mut arr = chars_of(ptr);
    extend_str(&mut arr, "/");
    extend_str(&mut arr, key);
    let arr = string_of(arr.as_slice());
    let base = if json_kind(doc.as_slice(), arr.as_str()) == Some(Some(JsonKind::Array)) {
        doc
    } else {
        let empty = vec![91u8, 93u8];
        assert(empty@ =~= empty_array());
        set(doc, ptr, key, empty.as_slice())
    };
    let ghost start = base@;
    let mut current = base;
    let mut m: usize = 0;
    assert(projects@.take(0) =~= seq![]);
    while m < projects.len()
        invariant
            m <= projects@.len(),
            current@ == with_projects(start, arr@, projects@.take(m as int)),
        decreases projects@.len() - m,
    {
        assert(projects@.take(m + 1).drop_last() =~= projects@.take(m as int));
        assert(projects@.take(m + 1).last() == projects@[m as int]);
        let n = match json_len(current.as_slice(), arr.as_str()) {
            Some(Some(n)) => n,
            _ => 0,
        };
        if !holds_string(current.as_slice(), arr.as_str(), n, projects[m].as_str()) {
            current = match json_push(current.as_slice(), arr.as_str(), projects[m].as_str()) {
                Some(d) => d,
                None => current,
            };
        }
        m += 1;
    }
    assert(projects@.take(m as int) =~= projects@);
    current
}

fn register_arrays_exec(doc: Vec<u8>, ptr: &str, projects: &[String]) -> (r: Vec<u8>)
    ensures
        r@ == register_arrays(doc@, ptr@, projects@),
{
    let d = register_array_exec(doc, ptr, "electron-saved-workspace-roots", projects);
    register_array_exec(d, ptr, "project-order", projects)
}

/// Registers projects with Codex Desktop: both of its project lists
/// (`electron-saved-workspace-roots` and `project-order`), at the top of
/// its state and in `electron-persisted-atom-state`, come to hold every
/// project, missing ones appended in order; everything else is kept. A
/// missing state file counts as `{}`, and anything but an object where an
/// object or a list belongs is replaced. `None` when there is nothing to
/// register (nothing is written then).
///
/// `existing` is the content of the state file, when there is one.
pub fn register_projects(existing: Option<&[u8]>, projects: &[String]) -> (r: Result<
    Option<Vec<u8>>,
    StateError,
>)
    ensures
        match r {
            Ok(Some(bytes)) => register_spec(
                match existing {
                    Some(b) => Some(b@),
                    None => None,
                },
                projects@,
            ) == Ok::<Option<Seq<u8>>, StateError>(Some(bytes@)),
            Ok(None) => register_spec(
                match existing {
                    Some(b) => Some(b@),
                    None => None,
                },
                projects@,
            ) == Ok::<Option<Seq<u8>>, StateError>(None),
            Err(e) => register_spec(
                match existing {
                    Some(b) => Some(b@),
                    None => None,
                },
                projects@,
            ) == Err::<Option<Seq<u8>>, StateError>(e),
        },
{
    if projects.len() == 0 {
        return Ok(None);
    }
    let found: Vec<u8> = match existing {
        Some(bytes) => {
            if json_kind(bytes, "").is_none() {
                return Err(StateError::NotJson);
            }
            let mut copy: Vec<u8> = Vec::new();
            let mut i: usize = 0;
            while i < bytes.len()
                invariant
                    i <= bytes@.len(),
                    copy@ == bytes@.take(i as int),
                decreases bytes@.len() - i,
            {
                copy.push(bytes[i]);
                assert(copy@ =~= bytes@.take(i + 1));
                i += 1;
            }
            assert(bytes@.take(i as int) =~= bytes@);
            copy
        },
        None => {
            let e = vec![123u8, 125u8];
            assert(e@ =~= empty_object());
            e
        },
    };
    let root = if json_kind(found.as_slice(), "") == Some(Some(JsonKind::Object)) {
        found
    } else {
        let e = vec![123u8, 125u8];
        assert(e@ =~= empty_object());
        e
    };
    let top = register_arrays_exec(root, "", projects);
    let with_state = if json_kind(top.as_slice(), "/electron-persisted-atom-state") == Some(
        Some(JsonKind::Object),
    ) {
        top
    } else {
        let e = vec![123u8, 125u8];
        assert(e@ =~= empty_object());
        set(top, "", "electron-persisted-atom-state", e.as_slice())
    };
    let done = register_arrays_exec(with_state, "/electron-persisted-atom-state", projects);
    let out = match json_compact(done.as_slice(), "") {
        Some(Some(t)) => t,
        _ => done,
    };
    Ok(Some(out))
}

} // verus!
