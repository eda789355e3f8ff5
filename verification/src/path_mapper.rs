//! Normalisation of POSIX, Windows, UNC and WSL paths, and the mapping of a
//! path from the old device onto the new one.
use crate::model::PlatformKind;
use crate::text::{
    ascii_alpha, ascii_lower, ascii_lower_exec, chars_equal, chars_of, copy_chars, extend_chars,
    is_ascii_alpha, is_white_space, lower_chars, lower_seq, starts_with, starts_with_chars, string_of,
    string_push_str, sub_chars, trim, trim_chars, trim_end_char, trim_end_char_exec,
    trim_end, trim_start, trim_start_char, trim_start_char_exec,
};
use sha2::{Digest, Sha256};
use vstd::prelude::*;
use vstd::utf8::encode_utf8;

verus! {

/// A mapping from a source path prefix to a target path prefix.
#[derive(Debug, Clone, PartialEq, Eq)]
pub struct PathMapping {
    pub source: String,
    pub target: String,
}

/// Why a mapping argument was refused.
#[derive(Debug, Clone, PartialEq, Eq)]
pub enum PathMappingError {
    /// The argument has no `=` between the old and the new path.
    MissingSeparator(String),
    /// One side of the `=` is blank.
    EmptySide(String),
}

impl PathMappingError {
    /// The message shown to the user.
    pub fn message(&self) -> (s: String)
        ensures
            s@ == match self {
                PathMappingError::MissingSeparator(value) => "path mapping must use OLD=NEW: "@ + value@,
                PathMappingError::EmptySide(value) => "path mapping cannot contain an empty side: "@
                    + value@,
            },
    {
        let mut out = String::new();
        match self {
            PathMappingError::MissingSeparator(value) => {
                string_push_str(&mut out, "path mapping must use OLD=NEW: ");
                string_push_str(&mut out, value.as_str());
            },
            PathMappingError::EmptySide(value) => {
                string_push_str(&mut out, "path mapping cannot contain an empty side: ");
                string_push_str(&mut out, value.as_str());
            },
        }
        out
    }
}

/// Whether two paths are the same path, as `std::path::Path`'s `==` tells
/// (it compares them component by component, so that `a/b/` and `a//b`
/// name `a/b`). Equal texts are always the same path; which other texts
/// are depends on the platform's path syntax, and is not stated.
#[verifier::external_body]
pub(crate) fn same_path(a: &str, b: &str) -> (r: bool)
    ensures
        a@ == b@ ==> r,
{
    std::path::Path::new(a) == std::path::Path::new(b)
}

// ---------------------------------------------------------------------------
// Specification

/// The number of bytes of the UTF-8 encoding of `s` (`str::len`).
pub open spec fn byte_len(s: Seq<char>) -> usize {
    encode_utf8(s).len() as usize
}

pub open spec fn slash_for_backslash(c: char) -> char {
    if c == '\\' {
        '/'
    } else {
        c
    }
}

/// Every run of consecutive `/` replaced by a single `/`.
pub open spec fn collapse_slashes(s: Seq<char>) -> Seq<char>
    decreases s.len(),
{
    if s.len() == 0 {
        s
    } else {
        let rest = s.drop_last();
        if s.last() == '/' && rest.len() > 0 && rest.last() == '/' {
            collapse_slashes(rest)
        } else {
            collapse_slashes(rest).push(s.last())
        }
    }
}

pub open spec fn double_slash() -> Seq<char> {
    seq!['/', '/']
}

/// The normal form of a path: trimmed, with `/` as separator, repeated
/// separators collapsed unless the path is a UNC path (`//server/...`), and
/// without a trailing separator unless the path is a single character.
pub open spec fn normalize_spec(value: Seq<char>) -> Seq<char> {
    let r = trim(value).map_values(|c: char| slash_for_backslash(c));
    let c = if starts_with(r, double_slash()) {
        r
    } else {
        collapse_slashes(r)
    };
    if c.len() > 1 {
        trim_end_char(c, '/')
    } else {
        c
    }
}

/// Whether `prefix` is the whole of `path` or a whole-component prefix of it.
pub open spec fn prefix_matches_spec(path: Seq<char>, prefix: Seq<char>, insensitive: bool) -> bool {
    let p = if insensitive {
        lower_seq(path)
    } else {
        path
    };
    let q = if insensitive {
        lower_seq(prefix)
    } else {
        prefix
    };
    p == q || (starts_with(p, q) && p.len() > q.len() && p[q.len() as int] == '/')
}

/// A path that starts with a drive letter, such as `D:/`.
pub open spec fn is_windows_drive_spec(path: Seq<char>) -> bool {
    path.len() >= 3 && is_ascii_alpha(path[0]) && path[1] == ':' && path[2] == '/'
}

/// Whether a normalized path can be used as it stands on the platform:
/// an absolute path, a drive path (Windows, WSL) or a UNC path (Windows).
pub open spec fn path_is_usable_spec(path: Seq<char>, platform: PlatformKind) -> bool {
    match platform {
        PlatformKind::Windows => (path.len() >= 3 && (path[0] as u32) < 128 && path[1] == ':'
            && path[2] == '/') || starts_with(path, double_slash()),
        PlatformKind::Wsl => starts_with(path, seq!['/']) || is_windows_drive_spec(path),
        _ => starts_with(path, seq!['/']),
    }
}

/// A drive path seen from WSL: `D:/x` becomes `/mnt/d/x`.
pub open spec fn platform_path_spec(path: Seq<char>, platform: PlatformKind) -> Seq<char> {
    if platform == PlatformKind::Wsl && is_windows_drive_spec(path) {
        seq!['/', 'm', 'n', 't', '/'] + seq![ascii_lower(path[0])] + seq!['/'] + trim_start_char(
            path.skip(2),
            '/',
        )
    } else {
        path
    }
}

/// `name` placed under `base` with `/` as separator: an absolute `name`
/// stands alone, and no separator is added after an empty base or one that
/// already ends with `/`.
pub open spec fn join_spec(base: Seq<char>, name: Seq<char>) -> Seq<char> {
    if starts_with(name, seq!['/']) || base.len() == 0 {
        name
    } else if base.last() == '/' {
        base + name
    } else {
        base + seq!['/'] + name
    }
}

/// The target of a matched mapping: the target without trailing separators,
/// followed by what the source prefix leaves of the path.
pub open spec fn mapped_target(path: Seq<char>, source: Seq<char>, target: Seq<char>) -> Seq<char> {
    trim_end_char(target, '/') + path.skip(source.len() as int)
}

/// Of the pairs whose source matches `path`, the last one with the longest
/// source in bytes (`Iterator::max_by_key`).
pub open spec fn last_longest_match(
    path: Seq<char>,
    pairs: Seq<(Seq<char>, Seq<char>)>,
    insensitive: bool,
) -> Option<int>
    decreases pairs.len(),
{
    if pairs.len() == 0 {
        None
    } else {
        let k = pairs.len() - 1;
        let before = last_longest_match(path, pairs.drop_last(), insensitive);
        if prefix_matches_spec(path, pairs[k].0, insensitive) {
            match before {
                None => Some(k),
                Some(j) => if byte_len(pairs[k].0) >= byte_len(pairs[j].0) {
                    Some(k)
                } else {
                    Some(j)
                },
            }
        } else {
            before
        }
    }
}

/// Of the pairs whose source matches `path`, the first one with the longest
/// source in bytes (a stable sort by descending length, then the first).
pub open spec fn first_longest_match(
    path: Seq<char>,
    pairs: Seq<(Seq<char>, Seq<char>)>,
    insensitive: bool,
) -> Option<int>
    decreases pairs.len(),
{
    if pairs.len() == 0 {
        None
    } else {
        let k = pairs.len() - 1;
        let before = first_longest_match(path, pairs.drop_last(), insensitive);
        if prefix_matches_spec(path, pairs[k].0, insensitive) {
            match before {
                None => Some(k),
                Some(j) => if byte_len(pairs[k].0) > byte_len(pairs[j].0) {
                    Some(k)
                } else {
                    Some(j)
                },
            }
        } else {
            before
        }
    }
}

/// The views of a list of `(source, target)` string pairs.
pub open spec fn pair_views(pairs: Seq<(String, String)>) -> Seq<(Seq<char>, Seq<char>)> {
    pairs.map_values(|p: (String, String)| (p.0@, p.1@))
}

/// The views of a list of mappings.
pub open spec fn mapping_views(pairs: Seq<PathMapping>) -> Seq<(Seq<char>, Seq<char>)> {
    pairs.map_values(|p: PathMapping| (p.source@, p.target@))
}

pub open spec fn case_insensitive(platform: PlatformKind) -> bool {
    platform == PlatformKind::Windows
}

/// The path that an explicit mapping gives `original`, if one matches.
pub open spec fn map_explicit_spec(
    original: Seq<char>,
    pairs: Seq<(Seq<char>, Seq<char>)>,
    platform: PlatformKind,
) -> Option<Seq<char>> {
    let n = normalize_spec(original);
    match last_longest_match(n, pairs, case_insensitive(platform)) {
        Some(k) => Some(platform_path_spec(mapped_target(n, pairs[k].0, pairs[k].1), platform)),
        None => None,
    }
}

/// Where `original` goes on the new device: through the longest matching
/// mapping; else as it stands if usable there; else to a per-thread folder
/// under `history_root`.
pub open spec fn map_path_spec(
    original: Seq<char>,
    pairs: Seq<(Seq<char>, Seq<char>)>,
    platform: PlatformKind,
    history_root: Seq<char>,
    thread_id: Seq<char>,
) -> Seq<char> {
    let n = normalize_spec(original);
    match first_longest_match(n, pairs, case_insensitive(platform)) {
        Some(k) => platform_path_spec(mapped_target(n, pairs[k].0, pairs[k].1), platform),
        None => if path_is_usable_spec(n, platform) {
            platform_path_spec(n, platform)
        } else {
            join_spec(history_root, thread_id)
        },
    }
}

// ---------------------------------------------------------------------------
// Normalisation

fn collapse_slashes_exec(v: &[char]) -> (out: Vec<char>)
    ensures
        out@ == collapse_slashes(v@),
{
    let mut out: Vec<char> = Vec::new();
    let mut i: usize = 0;
    while i < v.len()
        invariant
            i <= v@.len(),
            out@ == collapse_slashes(v@.take(i as int)),
        decreases v@.len() - i,
    {
        let ghost t = v@.take(i + 1);
        assert(t.drop_last() =~= v@.take(i as int));
        if !(v[i] == '/' && i > 0 && v[i - 1] == '/') {
            out.push(v[i]);
        }
        i += 1;
    }
    assert(v@.take(v@.len() as int) =~= v@);
    out
}

fn backslash_to_slash(v: &[char]) -> (out: Vec<char>)
    ensures
        out@ == v@.map_values(|c: char| slash_for_backslash(c)),
{
    let mut out: Vec<char> = Vec::new();
    let mut i: usize = 0;
    while i < v.len()
        invariant
            i <= v@.len(),
            out@ == v@.take(i as int).map_values(|c: char| slash_for_backslash(c)),
        decreases v@.len() - i,
    {
        let c = v[i];
        out.push(if c == '\\' { '/' } else { c });
        assert(v@.take(i + 1).map_values(|c: char| slash_for_backslash(c)) =~= v@.take(
            i as int,
        ).map_values(|c: char| slash_for_backslash(c)).push(slash_for_backslash(v@[i as int])));
        i += 1;
    }
    assert(v@.take(v@.len() as int) =~= v@);
    out
}

pub(crate) fn normalize_chars(value: &[char]) -> (out: Vec<char>)
    ensures
        out@ == normalize_spec(value@),
{
    let t = trim_chars(value);
    let r = backslash_to_slash(t.as_slice());
    let ds = ['/', '/'];
    assert(ds@ =~= double_slash());
    let c = if starts_with_chars(r.as_slice(), ds.as_slice()) {
        r
    } else {
        collapse_slashes_exec(r.as_slice())
    };
    if c.len() > 1 {
        trim_end_char_exec(c.as_slice(), '/')
    } else {
        c
    }
}

/// The normal form of a path (see [`normalize_spec`]).
pub fn normalize(value: &str) -> (out: String)
    ensures
        out@ == normalize_spec(value@),
{
    let v = chars_of(value);
    let n = normalize_chars(v.as_slice());
    string_of(n.as_slice())
}

/// The position of the first `c` in `s`.
pub open spec fn first_index_of(s: Seq<char>, c: char) -> Option<int>
    decreases s.len(),
{
    if s.len() == 0 {
        None
    } else if s[0] == c {
        Some(0)
    } else {
        match first_index_of(s.drop_first(), c) {
            Some(i) => Some(i + 1),
            None => None,
        }
    }
}

proof fn lemma_first_index_of(s: Seq<char>, c: char, i: int)
    requires
        0 <= i < s.len(),
        s[i] == c,
        !s.take(i).contains(c),
    ensures
        first_index_of(s, c) == Some(i),
    decreases s.len(),
{
    if i > 0 {
        assert(s[0] != c) by {
            assert(s.take(i)[0] == s[0]);
        }
        assert(!s.drop_first().take(i - 1).contains(c)) by {
            if s.drop_first().take(i - 1).contains(c) {
                let t = s.drop_first().take(i - 1);
                let k = choose|k: int| 0 <= k < t.len() && t[k] == c;
                assert(s.take(i)[k + 1] == c);
            }
        }
        lemma_first_index_of(s.drop_first(), c, i - 1);
    }
}

proof fn lemma_no_index(s: Seq<char>, c: char)
    requires
        !s.contains(c),
    ensures
        first_index_of(s, c) is None,
    decreases s.len(),
{
    if s.len() > 0 {
        assert(!s.drop_first().contains(c)) by {
            if s.drop_first().contains(c) {
                let t = s.drop_first();
                let k = choose|k: int| 0 <= k < t.len() && t[k] == c;
                assert(s[k + 1] == c);
            }
        }
        lemma_no_index(s.drop_first(), c);
    }
}

/// The `(old, new)` pair that a mapping argument gives: split at its first
/// `=`, both sides normalized, when neither side is blank.
pub open spec fn mapping_pair(value: Seq<char>) -> Option<(Seq<char>, Seq<char>)> {
    match first_index_of(value, '=') {
        None => None,
        Some(i) => if trim(value.take(i)).len() > 0 && trim(value.skip(i + 1)).len() > 0 {
            Some((normalize_spec(value.take(i)), normalize_spec(value.skip(i + 1))))
        } else {
            None
        },
    }
}

/// Parses a mapping argument `OLD=NEW`; both sides are normalized.
pub fn parse_mapping(value: &str) -> (result: Result<PathMapping, PathMappingError>)
    ensures
        match result {
            Ok(m) => mapping_pair(value@) == Some((m.source@, m.target@)),
            Err(PathMappingError::MissingSeparator(v)) => v@ == value@ && first_index_of(
                value@,
                '=',
            ) is None,
            Err(PathMappingError::EmptySide(v)) => v@ == value@ && first_index_of(value@, '=')
                is Some && mapping_pair(value@) is None,
        },
        match result {
            Ok(m) => exists|i: int|
                0 <= i < value@.len() && value@[i] == '=' && !value@.take(i).contains('=') && trim(
                    value@.take(i),
                ).len() > 0 && trim(value@.skip(i + 1)).len() > 0 && m.source@ == normalize_spec(
                    value@.take(i),
                ) && m.target@ == normalize_spec(value@.skip(i + 1)),
            Err(PathMappingError::MissingSeparator(v)) => v@ == value@ && !value@.contains('='),
            Err(PathMappingError::EmptySide(v)) => v@ == value@ && exists|i: int|
                0 <= i < value@.len() && value@[i] == '=' && !value@.take(i).contains('=') && (trim(
                    value@.take(i),
                ).len() == 0 || trim(value@.skip(i + 1)).len() == 0),
        },
{
    let v = chars_of(value);
    let mut i: usize = 0;
    while i < v.len() && v[i] != '='
        invariant
            i <= v@.len(),
            v@ == value@,
            forall|k: int| 0 <= k < i ==> v@[k] != '=',
        decreases v@.len() - i,
    {
        i += 1;
    }
    if i == v.len() {
        proof {
            if v@.contains('=') {
                let k = choose|k: int| 0 <= k < v@.len() && v@[k] == '=';
                assert(false);
            }
        }
        proof {
            lemma_no_index(value@, '=');
        }
        return Err(PathMappingError::MissingSeparator(string_of(v.as_slice())));
    }
    let source = sub_chars(v.as_slice(), 0, i);
    let target = sub_chars(v.as_slice(), i + 1, v.len());
    assert(source@ =~= value@.take(i as int));
    assert(target@ =~= value@.skip(i + 1));
    proof {
        if value@.take(i as int).contains('=') {
            let k = choose|k: int| 0 <= k < i && value@.take(i as int)[k] == '=';
            assert(v@[k] == '=');
        }
    }
    proof {
        lemma_first_index_of(value@, '=', i as int);
    }
    let ts = trim_chars(source.as_slice());
    let tt = trim_chars(target.as_slice());
    if ts.len() == 0 || tt.len() == 0 {
        return Err(PathMappingError::EmptySide(string_of(v.as_slice())));
    }
    let s = normalize_chars(source.as_slice());
    let t = normalize_chars(target.as_slice());
    Ok(PathMapping { source: string_of(s.as_slice()), target: string_of(t.as_slice()) })
}

// ---------------------------------------------------------------------------
// Matching

pub(crate) fn prefix_matches_chars(path: &[char], prefix: &[char], insensitive: bool) -> (r: bool)
    ensures
        r == prefix_matches_spec(path@, prefix@, insensitive),
{
    let p = if insensitive {
        lower_chars(path)
    } else {
        copy_chars(path)
    };
    let q = if insensitive {
        lower_chars(prefix)
    } else {
        copy_chars(prefix)
    };
    if chars_equal(p.as_slice(), q.as_slice()) {
        return true;
    }
    starts_with_chars(p.as_slice(), q.as_slice()) && p.len() > q.len() && p[q.len()] == '/'
}

/// Whether `prefix` is the whole of `path` or a whole-component prefix of
/// it, ignoring ASCII case when `insensitive` holds.
pub fn prefix_matches(path: &str, prefix: &str, insensitive: bool) -> (r: bool)
    ensures
        r == prefix_matches_spec(path@, prefix@, insensitive),
{
    let p = chars_of(path);
    let q = chars_of(prefix);
    prefix_matches_chars(p.as_slice(), q.as_slice(), insensitive)
}

pub(crate) fn is_windows_drive_chars(path: &[char]) -> (r: bool)
    ensures
        r == is_windows_drive_spec(path@),
{
    path.len() >= 3 && ascii_alpha(path[0]) && path[1] == ':' && path[2] == '/'
}

fn path_is_usable_chars(path: &[char], platform: PlatformKind) -> (r: bool)
    ensures
        r == path_is_usable_spec(path@, platform),
{
    let ds = ['/', '/'];
    assert(ds@ =~= double_slash());
    let one = ['/'];
    assert(one@ =~= seq!['/']);
    match platform {
        PlatformKind::Windows => (path.len() >= 3 && (path[0] as u32) < 128 && path[1] == ':'
            && path[2] == '/') || starts_with_chars(path, ds.as_slice()),
        PlatformKind::Wsl => starts_with_chars(path, one.as_slice()) || is_windows_drive_chars(
            path,
        ),
        _ => starts_with_chars(path, one.as_slice()),
    }
}

fn platform_path_chars(path: &[char], platform: PlatformKind) -> (out: Vec<char>)
    ensures
        out@ == platform_path_spec(path@, platform),
{
    if platform == PlatformKind::Wsl && is_windows_drive_chars(path) {
        let mut out: Vec<char> = Vec::new();
        out.push('/');
        out.push('m');
        out.push('n');
        out.push('t');
        out.push('/');
        out.push(ascii_lower_exec(path[0]));
        out.push('/');
        let rest = sub_chars(path, 2, path.len());
        assert(rest@ =~= path@.skip(2));
        let rest = trim_start_char_exec(rest.as_slice(), '/');
        let ghost before = out@;
        extend_chars(&mut out, rest.as_slice());
        assert(out@ =~= seq!['/', 'm', 'n', 't', '/'] + seq![ascii_lower(path@[0])] + seq!['/']
            + trim_start_char(path@.skip(2), '/'));
        out
    } else {
        copy_chars(path)
    }
}

/// [`join_spec`].
pub(crate) fn join_chars(base: &[char], name: &[char]) -> (out: Vec<char>)
    ensures
        out@ == join_spec(base@, name@),
{
    let one = ['/'];
    assert(one@ =~= seq!['/']);
    if starts_with_chars(name, one.as_slice()) || base.len() == 0 {
        copy_chars(name)
    } else if base[base.len() - 1] == '/' {
        let mut out = copy_chars(base);
        extend_chars(&mut out, name);
        out
    } else {
        let mut out = copy_chars(base);
        out.push('/');
        extend_chars(&mut out, name);
        assert(out@ =~= base@ + seq!['/'] + name@);
        out
    }
}

/// `name` placed under the directory `base` (see [`join_spec`]).
pub fn join_path(base: &str, name: &str) -> (out: String)
    ensures
        out@ == join_spec(base@, name@),
{
    let b = chars_of(base);
    let n = chars_of(name);
    let j = join_chars(b.as_slice(), n.as_slice());
    string_of(j.as_slice())
}

fn mapped_target_chars(path: &[char], source: &[char], target: &[char]) -> (out: Vec<char>)
    requires
        source@.len() <= path@.len(),
    ensures
        out@ == mapped_target(path@, source@, target@),
{
    let mut out = trim_end_char_exec(target, '/');
    let rest = sub_chars(path, source.len(), path.len());
    assert(rest@ =~= path@.skip(source@.len() as int));
    extend_chars(&mut out, rest.as_slice());
    out
}

proof fn lemma_lower_len(s: Seq<char>)
    ensures
        lower_seq(s).len() == s.len(),
{
}

/// A matching source is never longer than the path it matches.
proof fn lemma_match_len(path: Seq<char>, prefix: Seq<char>, insensitive: bool)
    requires
        prefix_matches_spec(path, prefix, insensitive),
    ensures
        prefix.len() <= path.len(),
{
    lemma_lower_len(path);
    lemma_lower_len(prefix);
}

/// The path that the explicit mappings give `original`, if one matches
/// (the last of the longest matching sources, as `max_by_key` picks).
pub fn map_explicit(original: &str, mappings: &[(String, String)], platform: &PlatformKind) -> (out:
    Option<String>)
    ensures
        match out {
            Some(s) => map_explicit_spec(original@, pair_views(mappings@), *platform) == Some(s@),
            None => map_explicit_spec(original@, pair_views(mappings@), *platform) is None,
        },
{
    let o = chars_of(original);
    let n = normalize_chars(o.as_slice());
    let insensitive = *platform == PlatformKind::Windows;
    let ghost pairs = pair_views(mappings@);
    let mut best: Option<usize> = None;
    let mut i: usize = 0;
    while i < mappings.len()
        invariant
            i <= mappings@.len(),
            pairs == pair_views(mappings@),
            n@ == normalize_spec(original@),
            insensitive == case_insensitive(*platform),
            match best {
                Some(j) => last_longest_match(n@, pairs.take(i as int), insensitive) == Some(
                    j as int,
                ) && j < i,
                None => last_longest_match(n@, pairs.take(i as int), insensitive) is None,
            },
        decreases mappings@.len() - i,
    {
        let src = chars_of(mappings[i].0.as_str());
        assert(pairs[i as int].0 == mappings@[i as int].0@);
        assert(best matches Some(j) ==> pairs[j as int].0 == mappings@[j as int].0@);
        assert(pairs.take(i + 1).drop_last() =~= pairs.take(i as int));
        assert(pairs.take(i + 1)[i as int] == pairs[i as int]);
        assert(best matches Some(j) ==> pairs.take(i + 1)[j as int] == pairs[j as int]);

        if prefix_matches_chars(n.as_slice(), src.as_slice(), insensitive) {
            match best {
                None => {
                    best = Some(i);
                },
                Some(j) => {
                    let li = mappings[i].0.as_str().len();
                    let lj = mappings[j].0.as_str().len();
                    assert(li == byte_len(pairs[i as int].0));
                    assert(lj == byte_len(pairs[j as int].0));
                    if li >= lj {
                        best = Some(i);
                    }
                },
            }
        }
        i += 1;
    }
    assert(pairs.take(mappings@.len() as int) =~= pairs);
    match best {
        None => None,
        Some(k) => {
            let src = chars_of(mappings[k].0.as_str());
            let tgt = chars_of(mappings[k].1.as_str());
            proof {
                lemma_last_longest_matches(n@, pairs, insensitive);
                lemma_match_len(n@, src@, insensitive);
            }
            let m = mapped_target_chars(n.as_slice(), src.as_slice(), tgt.as_slice());
            let p = platform_path_chars(m.as_slice(), *platform);
            Some(string_of(p.as_slice()))
        },
    }
}

proof fn lemma_last_longest_matches(
    path: Seq<char>,
    pairs: Seq<(Seq<char>, Seq<char>)>,
    insensitive: bool,
)
    ensures
        last_longest_match(path, pairs, insensitive) matches Some(k) ==> 0 <= k < pairs.len()
            && prefix_matches_spec(path, pairs[k].0, insensitive),
    decreases pairs.len(),
{
    if pairs.len() > 0 {
        lemma_last_longest_matches(path, pairs.drop_last(), insensitive);
    }
}

proof fn lemma_first_longest_matches(
    path: Seq<char>,
    pairs: Seq<(Seq<char>, Seq<char>)>,
    insensitive: bool,
)
    ensures
        first_longest_match(path, pairs, insensitive) matches Some(k) ==> 0 <= k < pairs.len()
            && prefix_matches_spec(path, pairs[k].0, insensitive),
    decreases pairs.len(),
{
    if pairs.len() > 0 {
        lemma_first_longest_matches(path, pairs.drop_last(), insensitive);
    }
}

/// Where `original` goes on the new device (see [`map_path_spec`]).
pub fn map_path(
    original: &str,
    mappings: &[PathMapping],
    platform: &PlatformKind,
    history_root: &str,
    thread_id: &str,
) -> (out: String)
    ensures
        out@ == map_path_spec(
            original@,
            mapping_views(mappings@),
            *platform,
            history_root@,
            thread_id@,
        ),
{
    let o = chars_of(original);
    let n = normalize_chars(o.as_slice());
    let insensitive = *platform == PlatformKind::Windows;
    let ghost pairs = mapping_views(mappings@);
    let mut best: Option<usize> = None;
    let mut i: usize = 0;
    while i < mappings.len()
        invariant
            i <= mappings@.len(),
            pairs == mapping_views(mappings@),
            n@ == normalize_spec(original@),
            insensitive == case_insensitive(*platform),
            match best {
                Some(j) => first_longest_match(n@, pairs.take(i as int), insensitive) == Some(
                    j as int,
                ) && j < i,
                None => first_longest_match(n@, pairs.take(i as int), insensitive) is None,
            },
        decreases mappings@.len() - i,
    {
        let src = chars_of(mappings[i].source.as_str());
        assert(pairs[i as int].0 == mappings@[i as int].source@);
        assert(best matches Some(j) ==> pairs[j as int].0 == mappings@[j as int].source@);
        assert(pairs.take(i + 1).drop_last() =~= pairs.take(i as int));
        assert(pairs.take(i + 1)[i as int] == pairs[i as int]);
        assert(best matches Some(j) ==> pairs.take(i + 1)[j as int] == pairs[j as int]);

        if prefix_matches_chars(n.as_slice(), src.as_slice(), insensitive) {
            match best {
                None => {
                    best = Some(i);
                },
                Some(j) => {
                    let li = mappings[i].source.as_str().len();
                    let lj = mappings[j].source.as_str().len();
                    assert(li == byte_len(pairs[i as int].0));
                    assert(lj == byte_len(pairs[j as int].0));
                    if li > lj {
                        best = Some(i);
                    }
                },
            }
        }
        i += 1;
    }
    assert(pairs.take(mappings@.len() as int) =~= pairs);
    match best {
        Some(k) => {
            let src = chars_of(mappings[k].source.as_str());
            let tgt = chars_of(mappings[k].target.as_str());
            proof {
                lemma_first_longest_matches(n@, pairs, insensitive);
                lemma_match_len(n@, src@, insensitive);
            }
            let m = mapped_target_chars(n.as_slice(), src.as_slice(), tgt.as_slice());
            let p = platform_path_chars(m.as_slice(), *platform);
            string_of(p.as_slice())
        },
        None => {
            if path_is_usable_chars(n.as_slice(), *platform) {
                let p = platform_path_chars(n.as_slice(), *platform);
                string_of(p.as_slice())
            } else {
                join_path(history_root, thread_id)
            }
        },
    }
}

// ---------------------------------------------------------------------------
// History-only folders

/// The SHA-256 digest of `data`.
pub uninterp spec fn sha256_of(data: Seq<u8>) -> Seq<u8>;

/// `sha2::Sha256::digest`: the digest of `data`, which is 32 bytes long.
#[verifier::external_body]
pub(crate) fn sha256_digest(data: &[u8]) -> (d: Vec<u8>)
    ensures
        d@ == sha256_of(data@),
        d@.len() == 32,
{
    Sha256::digest(data).to_vec()
}

/// The lowercase hexadecimal digit of a value below 16.
pub open spec fn hex_digit(n: int) -> char {
    if n < 10 {
        (48 + n) as char
    } else {
        (87 + n) as char
    }
}

/// Two lowercase hexadecimal digits per byte, high nibble first.
pub open spec fn hex_lower(data: Seq<u8>) -> Seq<char>
    decreases data.len(),
{
    if data.len() == 0 {
        seq![]
    } else {
        seq![hex_digit(data[0] as int / 16), hex_digit(data[0] as int % 16)] + hex_lower(data.drop_first())
    }
}

pub proof fn lemma_hex_lower_len(data: Seq<u8>)
    ensures
        hex_lower(data).len() == 2 * data.len(),
    decreases data.len(),
{
    if data.len() > 0 {
        lemma_hex_lower_len(data.drop_first());
    }
}

/// `hex::encode`: two lowercase hexadecimal digits per byte.
#[verifier::external_body]
pub(crate) fn hex_encode(data: &[u8]) -> (s: String)
    ensures
        s@ == hex_lower(data@),
{
    hex::encode(data)
}

/// Whether `c` is alphabetic or numeric in the Unicode sense.
pub uninterp spec fn char_is_alphanumeric(c: char) -> bool;

/// `char::is_alphanumeric`.
#[verifier::external_body]
pub(crate) fn is_alphanumeric(c: char) -> (r: bool)
    ensures
        r == char_is_alphanumeric(c),
{
    c.is_alphanumeric()
}

/// The characters of `t` after its last `/`.
pub open spec fn after_last_slash(t: Seq<char>) -> Seq<char>
    decreases t.len(),
{
    if t.len() == 0 {
        t
    } else if t.last() == '/' {
        seq![]
    } else {
        after_last_slash(t.drop_last()).push(t.last())
    }
}

/// The last non-empty `/`-separated component of `s`, if any.
pub open spec fn last_component(s: Seq<char>) -> Option<Seq<char>> {
    let t = trim_end_char(s, '/');
    if t.len() == 0 {
        None
    } else {
        Some(after_last_slash(t))
    }
}

/// A folder-name character: alphanumerics and `-`, `_`, `.` stay, anything
/// else becomes `_`.
pub open spec fn folder_safe_char(c: char) -> char {
    if char_is_alphanumeric(c) || c == '-' || c == '_' || c == '.' {
        c
    } else {
        '_'
    }
}

pub open spec fn project_word() -> Seq<char> {
    seq!['p', 'r', 'o', 'j', 'e', 'c', 't']
}

/// The folder that keeps the history of a project that has no folder on the
/// new device: twelve hex digits of the SHA-256 of the normalized path, `-`,
/// and the last path component made folder-safe (`project` if there is none).
pub open spec fn history_only_spec(root: Seq<char>, original: Seq<char>) -> Seq<char> {
    let n = normalize_spec(original);
    let digest = hex_lower(sha256_of(encode_utf8(n)));
    let name = match last_component(n) {
        Some(c) => c,
        None => project_word(),
    };
    join_spec(
        root,
        digest.take(12) + seq!['-'] + name.map_values(|c: char| folder_safe_char(c)),
    )
}

fn after_last_slash_exec(t: &[char]) -> (out: Vec<char>)
    ensures
        out@ == after_last_slash(t@),
{
    let mut start = t.len();
    assert(t@.take(t@.len() as int) =~= t@);
    assert(t@.skip(t@.len() as int) =~= seq![]);
    assert(t@ + seq![] =~= t@);
    while start > 0 && t[start - 1] != '/'
        invariant
            start <= t@.len(),
            after_last_slash(t@) == after_last_slash(t@.take(start as int)) + t@.skip(
                start as int,
            ),
        decreases start,
    {
        let ghost u = t@.take(start as int);
        assert(u.drop_last() =~= t@.take(start - 1));
        assert(t@.skip(start - 1) =~= seq![t@[start - 1]] + t@.skip(start as int));
        assert(after_last_slash(u) =~= after_last_slash(t@.take(start - 1)).push(t@[start - 1]));
        assert(after_last_slash(t@.take(start - 1)).push(t@[start - 1]) + t@.skip(start as int)
            =~= after_last_slash(t@.take(start - 1)) + t@.skip(start - 1));
        start -= 1;
    }
    proof {
        let u = t@.take(start as int);
        if start > 0 {
            assert(after_last_slash(u) =~= seq![]);
        } else {
            assert(after_last_slash(u) =~= seq![]);
        }
        assert(t@.take(t@.len() as int) =~= t@);
        assert(t@.skip(start as int) =~= t@.subrange(start as int, t@.len() as int));
    }
    sub_chars(t, start, t.len())
}

/// Replaces every character that is not folder-safe by `_`.
fn folder_safe(v: &[char]) -> (out: Vec<char>)
    ensures
        out@ == v@.map_values(|c: char| folder_safe_char(c)),
{
    let mut out: Vec<char> = Vec::new();
    let mut i: usize = 0;
    while i < v.len()
        invariant
            i <= v@.len(),
            out@ == v@.take(i as int).map_values(|c: char| folder_safe_char(c)),
        decreases v@.len() - i,
    {
        let c = v[i];
        let keep = is_alphanumeric(c) || c == '-' || c == '_' || c == '.';
        out.push(if keep { c } else { '_' });
        assert(v@.take(i + 1).map_values(|c: char| folder_safe_char(c)) =~= v@.take(
            i as int,
        ).map_values(|c: char| folder_safe_char(c)).push(folder_safe_char(v@[i as int])));
        i += 1;
    }
    assert(v@.take(v@.len() as int) =~= v@);
    out
}

/// The folder that keeps the history of a project that has no folder on the
/// new device (see [`history_only_spec`]); the same project always gets the
/// same folder.
pub fn history_only_path(root: &str, original: &str) -> (out: String)
    ensures
        out@ == history_only_spec(root@, original@),
{
    let o = chars_of(original);
    let n = normalize_chars(o.as_slice());
    let ns = string_of(n.as_slice());
    let bytes = ns.as_str().as_bytes();
    assert(bytes@ == encode_utf8(n@));
    let digest = sha256_digest(bytes);
    let hex = hex_encode(digest.as_slice());
    let hex_chars = chars_of(hex.as_str());
    proof {
        lemma_hex_lower_len(digest@);
    }
    let mut name_part = sub_chars(hex_chars.as_slice(), 0, 12);
    assert(name_part@ =~= hex_chars@.take(12));
    name_part.push('-');
    let t = trim_end_char_exec(n.as_slice(), '/');
    let component = if t.len() == 0 {
        let w = ['p', 'r', 'o', 'j', 'e', 'c', 't'];
        assert(w@ =~= project_word());
        copy_chars(w.as_slice())
    } else {
        after_last_slash_exec(t.as_slice())
    };
    let safe = folder_safe(component.as_slice());
    let ghost digest_part = name_part@;
    extend_chars(&mut name_part, safe.as_slice());
    proof {
        let name = match last_component(n@) {
            Some(c) => c,
            None => project_word(),
        };
        assert(component@ == name);
        assert(digest_part =~= hex_lower(sha256_of(encode_utf8(n@))).take(12) + seq!['-']);
    }
    let r = chars_of(root);
    let joined = join_chars(r.as_slice(), name_part.as_slice());
    string_of(joined.as_slice())
}

/// The longest matching source wins: the mapping chosen for a path matches
/// it, and no matching source is longer (in bytes); when none is chosen, no
/// source matches.
pub proof fn law_longest_prefix_wins(
    path: Seq<char>,
    pairs: Seq<(Seq<char>, Seq<char>)>,
    insensitive: bool,
)
    ensures
        match last_longest_match(path, pairs, insensitive) {
            Some(k) => {
                &&& 0 <= k < pairs.len()
                &&& prefix_matches_spec(path, pairs[k].0, insensitive)
                &&& forall|j: int|
                    0 <= j < pairs.len() && prefix_matches_spec(path, #[trigger] pairs[j].0, insensitive)
                        ==> byte_len(pairs[j].0) <= byte_len(pairs[k].0)
            },
            None => forall|j: int|
                0 <= j < pairs.len() ==> !prefix_matches_spec(path, #[trigger] pairs[j].0, insensitive),
        },
    decreases pairs.len(),
{
    if pairs.len() > 0 {
        let rest = pairs.drop_last();
        let last = pairs.len() - 1;
        law_longest_prefix_wins(path, rest, insensitive);
        match last_longest_match(path, pairs, insensitive) {
            Some(k) => {
                assert forall|j: int|
                    0 <= j < pairs.len() && prefix_matches_spec(
                        path,
                        #[trigger] pairs[j].0,
                        insensitive,
                    ) implies byte_len(pairs[j].0) <= byte_len(pairs[k].0) by {
                    if j < last {
                        assert(rest[j].0 == pairs[j].0);
                    }
                }
            },
            None => {
                assert forall|j: int| 0 <= j < pairs.len() implies !prefix_matches_spec(
                    path,
                    #[trigger] pairs[j].0,
                    insensitive,
                ) by {
                    if j < last {
                        assert(rest[j].0 == pairs[j].0);
                    }
                }
            },
        }
    }
}

proof fn lemma_first_longest(path: Seq<char>, pairs: Seq<(Seq<char>, Seq<char>)>, insensitive: bool)
    ensures
        match first_longest_match(path, pairs, insensitive) {
            Some(k) => {
                &&& 0 <= k < pairs.len()
                &&& prefix_matches_spec(path, pairs[k].0, insensitive)
                &&& forall|j: int|
                    0 <= j < pairs.len() && prefix_matches_spec(path, #[trigger] pairs[j].0, insensitive)
                        ==> byte_len(pairs[j].0) <= byte_len(pairs[k].0)
                &&& forall|j: int|
                    0 <= j < k && prefix_matches_spec(path, #[trigger] pairs[j].0, insensitive)
                        ==> byte_len(pairs[j].0) < byte_len(pairs[k].0)
            },
            None => forall|j: int|
                0 <= j < pairs.len() ==> !prefix_matches_spec(path, #[trigger] pairs[j].0, insensitive),
        },
    decreases pairs.len(),
{
    if pairs.len() > 0 {
        let rest = pairs.drop_last();
        let last = pairs.len() - 1;
        lemma_first_longest(path, rest, insensitive);
        match first_longest_match(path, pairs, insensitive) {
            Some(k) => {
                assert forall|j: int|
                    0 <= j < pairs.len() && prefix_matches_spec(
                        path,
                        #[trigger] pairs[j].0,
                        insensitive,
                    ) implies byte_len(pairs[j].0) <= byte_len(pairs[k].0) by {
                    if j < last {
                        assert(rest[j].0 == pairs[j].0);
                    }
                }
                assert forall|j: int|
                    0 <= j < k && prefix_matches_spec(
                        path,
                        #[trigger] pairs[j].0,
                        insensitive,
                    ) implies byte_len(pairs[j].0) < byte_len(pairs[k].0) by {
                    assert(rest[j].0 == pairs[j].0);
                }
            },
            None => {
                assert forall|j: int| 0 <= j < pairs.len() implies !prefix_matches_spec(
                    path,
                    #[trigger] pairs[j].0,
                    insensitive,
                ) by {
                    if j < last {
                        assert(rest[j].0 == pairs[j].0);
                    }
                }
            },
        }
    }
}

/// Mapping a path takes the mapping with the longest matching source (in
/// bytes), the first given among equally long ones, and puts the rest of
/// the path under its target; with no matching source the path is kept
/// where it is usable here, else it gets a per-thread history folder.
pub proof fn law_map_path_takes_longest_prefix(
    original: Seq<char>,
    pairs: Seq<(Seq<char>, Seq<char>)>,
    platform: PlatformKind,
    history_root: Seq<char>,
    thread_id: Seq<char>,
)
    ensures
        ({
            let n = normalize_spec(original);
            let ci = case_insensitive(platform);
            let result = map_path_spec(original, pairs, platform, history_root, thread_id);
            ||| exists|k: int|
                {
                    &&& 0 <= k < pairs.len()
                    &&& prefix_matches_spec(n, #[trigger] pairs[k].0, ci)
                    &&& forall|j: int|
                        0 <= j < pairs.len() && prefix_matches_spec(n, #[trigger] pairs[j].0, ci)
                            ==> byte_len(pairs[j].0) <= byte_len(pairs[k].0)
                    &&& forall|j: int|
                        0 <= j < k && prefix_matches_spec(n, #[trigger] pairs[j].0, ci) ==> byte_len(
                            pairs[j].0,
                        ) < byte_len(pairs[k].0)
                    &&& result == platform_path_spec(mapped_target(n, pairs[k].0, pairs[k].1), platform)
                }
            ||| {
                &&& forall|j: int|
                    0 <= j < pairs.len() ==> !prefix_matches_spec(n, #[trigger] pairs[j].0, ci)
                &&& result == if path_is_usable_spec(n, platform) {
                    platform_path_spec(n, platform)
                } else {
                    join_spec(history_root, thread_id)
                }
            }
        }),
{
    let n = normalize_spec(original);
    lemma_first_longest(n, pairs, case_insensitive(platform));
    match first_longest_match(n, pairs, case_insensitive(platform)) {
        Some(k) => {
            assert(prefix_matches_spec(n, pairs[k].0, case_insensitive(platform)));
        },
        None => {},
    }
}

/// No character of the path is white space or a backslash.
pub open spec fn plain_chars(s: Seq<char>) -> bool {
    forall|i: int| 0 <= i < s.len() ==> !is_white_space(#[trigger] s[i]) && s[i] != '\\'
}

/// No two separators stand side by side.
pub open spec fn no_double_slash(s: Seq<char>) -> bool {
    forall|i: int| 0 <= i < s.len() - 1 ==> !(#[trigger] s[i] == '/' && s[i + 1] == '/')
}

proof fn lemma_collapse_shape(s: Seq<char>)
    ensures
        no_double_slash(collapse_slashes(s)),
        plain_chars(s) ==> plain_chars(collapse_slashes(s)),
        s.len() > 0 ==> collapse_slashes(s).len() > 0 && collapse_slashes(s).last() == s.last(),
    decreases s.len(),
{
    if s.len() > 0 {
        let rest = s.drop_last();
        lemma_collapse_shape(rest);
        if plain_chars(s) {
            assert(plain_chars(rest)) by {
                assert forall|i: int| 0 <= i < rest.len() implies !is_white_space(#[trigger] rest[i])
                    && rest[i] != '\\' by {
                    assert(rest[i] == s[i]);
                }
            }
        }
        let c = collapse_slashes(rest);
        if !(s.last() == '/' && rest.len() > 0 && rest.last() == '/') {
            let d = c.push(s.last());
            assert forall|i: int| 0 <= i < d.len() - 1 implies !(#[trigger] d[i] == '/' && d[i + 1]
                == '/') by {
                if i < c.len() - 1 {
                    assert(d[i] == c[i] && d[i + 1] == c[i + 1]);
                }
            }
        }
    }
}

proof fn lemma_collapse_identity(s: Seq<char>)
    requires
        no_double_slash(s),
    ensures
        collapse_slashes(s) == s,
    decreases s.len(),
{
    if s.len() > 0 {
        let rest = s.drop_last();
        assert forall|i: int| 0 <= i < rest.len() - 1 implies !(#[trigger] rest[i] == '/' && rest[i
            + 1] == '/') by {
            assert(rest[i] == s[i] && rest[i + 1] == s[i + 1]);
        }
        lemma_collapse_identity(rest);
        if rest.len() > 0 {
            assert(s[s.len() - 2] == rest.last());
        }
        assert(rest.push(s.last()) =~= s);
    }
}

proof fn lemma_trim_end_char_shape(s: Seq<char>, c: char)
    ensures
        trim_end_char(s, c).len() <= s.len(),
        trim_end_char(s, c) == s.take(trim_end_char(s, c).len() as int),
        trim_end_char(s, c).len() > 0 ==> trim_end_char(s, c).last() != c,
        trim_end_char(trim_end_char(s, c), c) == trim_end_char(s, c),
    decreases s.len(),
{
    if s.len() > 0 && s.last() == c {
        lemma_trim_end_char_shape(s.drop_last(), c);
        let t = trim_end_char(s.drop_last(), c);
        assert(s.drop_last().take(t.len() as int) =~= s.take(t.len() as int));
    } else {
        assert(s.take(s.len() as int) =~= s);
    }
}

proof fn lemma_plain_prefix(s: Seq<char>, n: int)
    requires
        0 <= n <= s.len(),
        plain_chars(s),
        no_double_slash(s),
    ensures
        plain_chars(s.take(n)),
        no_double_slash(s.take(n)),
{
    let t = s.take(n);
    assert forall|i: int| 0 <= i < t.len() implies !is_white_space(#[trigger] t[i]) && t[i]
        != '\\' by {
        assert(t[i] == s[i]);
    }
    assert forall|i: int| 0 <= i < t.len() - 1 implies !(#[trigger] t[i] == '/' && t[i + 1] == '/') by {
        assert(t[i] == s[i] && t[i + 1] == s[i + 1]);
    }
}

proof fn lemma_plain_trim_and_map(s: Seq<char>)
    requires
        plain_chars(s),
    ensures
        trim(s).map_values(|c: char| slash_for_backslash(c)) == s,
{
    if s.len() > 0 {
        assert(!is_white_space(s[0]));
        assert(!is_white_space(s.last()));
    }
    assert(trim_start(s) == s);
    assert(trim_end(s) == s);
    assert(s.map_values(|c: char| slash_for_backslash(c)) =~= s);
}

/// Normalizing a normal form changes nothing (for paths without white
/// space: trimming a normal form could expose more white space).
pub proof fn law_normalize_idempotent(value: Seq<char>)
    requires
        forall|i: int| 0 <= i < value.len() ==> !is_white_space(#[trigger] value[i]),
    ensures
        normalize_spec(normalize_spec(value)) == normalize_spec(value),
{
    let r = trim(value).map_values(|c: char| slash_for_backslash(c));
    if value.len() > 0 {
        assert(!is_white_space(value[0]));
        assert(!is_white_space(value.last()));
    }
    assert(trim_start(value) == value);
    assert(trim_end(value) == value);
    assert(r.len() == value.len());
    assert(plain_chars(r)) by {
        assert forall|i: int| 0 <= i < r.len() implies !is_white_space(#[trigger] r[i]) && r[i]
            != '\\' by {
            assert(r[i] == slash_for_backslash(value[i]));
            assert(!is_white_space('/')) by {
                assert(('/' as u32) == 0x2F);
            }
        }
    }
    lemma_collapse_shape(r);
    let unc = starts_with(r, double_slash());
    let c = if unc {
        r
    } else {
        collapse_slashes(r)
    };
    let n = normalize_spec(value);
    assert(plain_chars(c));
    if c.len() > 1 {
        lemma_trim_end_char_shape(c, '/');
        assert(n == trim_end_char(c, '/'));
    } else {
        assert(n == c);
        assert(n == c.take(c.len() as int));
    }
    assert(n == c.take(n.len() as int));
    assert(plain_chars(n)) by {
        assert forall|i: int| 0 <= i < n.len() implies !is_white_space(#[trigger] n[i]) && n[i]
            != '\\' by {
            assert(n[i] == c[i]);
        }
    }
    lemma_plain_trim_and_map(n);
    if starts_with(n, double_slash()) {
        if n.len() > 1 {
            assert(c.len() > 1);
        }
    } else {
        if unc {
            if n.len() >= 2 {
                assert(n[0] == c[0] && n[1] == c[1]);
                assert(n.take(2) =~= double_slash());
            }
            assert(no_double_slash(n)) by {
                assert forall|i: int| 0 <= i < n.len() - 1 implies !(#[trigger] n[i] == '/' && n[i
                    + 1] == '/') by {}
            }
        } else {
            assert(no_double_slash(n)) by {
                assert forall|i: int| 0 <= i < n.len() - 1 implies !(#[trigger] n[i] == '/' && n[i
                    + 1] == '/') by {
                    assert(n[i] == c[i] && n[i + 1] == c[i + 1]);
                }
            }
        }
        lemma_collapse_identity(n);
        if n.len() > 1 {
            assert(c.len() > 1);
        }
    }
}

} // verus!
