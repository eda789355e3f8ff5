//! What is known of the Codex installation on this device.
use crate::model::PlatformKind;
use crate::text::{chars_of, ends_with, starts_with, str_equal};
use vstd::prelude::*;

verus! {

/// The Codex installation that a command works on.
#[derive(Debug, Clone)]
pub struct Environment {
    pub codex_home: String,
    pub sqlite_home: String,
    pub codex_executable: Option<String>,
    pub codex_version: Option<String>,
    pub platform: PlatformKind,
    pub wsl: bool,
    pub state_db: Option<String>,
    pub schema_version: Option<i64>,
}

/// The platform this device counts as: WSL whenever it runs under WSL,
/// else by the operating system's name (`std::env::consts::OS`).
pub fn current_platform(wsl: bool, os: &str) -> (p: PlatformKind)
    ensures
        p == (if wsl {
            PlatformKind::Wsl
        } else if os@ == "macos"@ {
            PlatformKind::Macos
        } else if os@ == "windows"@ {
            PlatformKind::Windows
        } else if os@ == "linux"@ {
            PlatformKind::Linux
        } else {
            PlatformKind::Unknown
        }),
{
    if wsl {
        PlatformKind::Wsl
    } else if str_equal(os, "macos") {
        PlatformKind::Macos
    } else if str_equal(os, "windows") {
        PlatformKind::Windows
    } else if str_equal(os, "linux") {
        PlatformKind::Linux
    } else {
        PlatformKind::Unknown
    }
}

// ---------------------------------------------------------------------------
// The state database

/// The value of a string of decimal digits.
pub open spec fn digits_value(s: Seq<char>) -> int
    decreases s.len(),
{
    if s.len() == 0 {
        0
    } else {
        digits_value(s.drop_last()) * 10 + (s.last() as int - '0' as int)
    }
}

/// Every character is an ASCII digit.
pub open spec fn all_digits(s: Seq<char>) -> bool {
    forall|i: int| 0 <= i < s.len() ==> '0' <= #[trigger] s[i] <= '9'
}

/// What `u32::from_str` accepts: an optional `+` and at least one decimal
/// digit, of a value that fits in 32 bits.
pub open spec fn parse_u32_spec(s: Seq<char>) -> Option<u32> {
    let d = if s.len() > 0 && s[0] == '+' {
        s.drop_first()
    } else {
        s
    };
    if d.len() > 0 && all_digits(d) && digits_value(d) <= u32::MAX {
        Some(digits_value(d) as u32)
    } else {
        None
    }
}

proof fn lemma_digits_grow(s: Seq<char>, i: int)
    requires
        0 <= i <= s.len(),
        all_digits(s),
    ensures
        0 <= digits_value(s.take(i)) <= digits_value(s),
    decreases s.len() - i,
{
    if i < s.len() {
        lemma_digits_grow(s, i + 1);
        assert(s.take(i + 1).drop_last() =~= s.take(i));
        lemma_digits_nonneg(s.take(i));
    } else {
        assert(s.take(i) =~= s);
        lemma_digits_nonneg(s);
    }
}

proof fn lemma_digits_nonneg(s: Seq<char>)
    requires
        all_digits(s),
    ensures
        digits_value(s) >= 0,
    decreases s.len(),
{
    if s.len() > 0 {
        assert(all_digits(s.drop_last())) by {
            assert forall|i: int| 0 <= i < s.drop_last().len() implies '0' <= #[trigger] s.drop_last()[i]
                <= '9' by {
                assert(s.drop_last()[i] == s[i]);
            }
        }
        lemma_digits_nonneg(s.drop_last());
        assert('0' <= s[s.len() - 1] <= '9');
    }
}

/// `u32::from_str` (see [`parse_u32_spec`]).
pub fn parse_u32(s: &str) -> (r: Option<u32>)
    ensures
        r == parse_u32_spec(s@),
{
    let v = chars_of(s);
    let start: usize = if v.len() > 0 && v[0] == '+' {
        1
    } else {
        0
    };
    let ghost d = if s@.len() > 0 && s@[0] == '+' {
        s@.drop_first()
    } else {
        s@
    };
    assert(d =~= v@.skip(start as int));
    if v.len() == start {
        return None;
    }
    let mut acc: u64 = 0;
    let mut i: usize = start;
    assert(d.take(0) =~= seq![]);
    while i < v.len()
        invariant
            start <= i <= v@.len(),
            v@ == s@,
            d == v@.skip(start as int),
            d == (if s@.len() > 0 && s@[0] == '+' {
                s@.drop_first()
            } else {
                s@
            }),
            acc as int == digits_value(d.take(i - start)),
            acc <= u32::MAX,
            all_digits(d.take(i - start)),
        decreases v@.len() - i,
    {
        let c = v[i];
        assert(d[i - start] == c);
        if c < '0' || c > '9' {
            assert(!all_digits(d));
            return None;
        }
        let digit = (c as u32 - '0' as u32) as u64;
        assert(d.take(i - start + 1).drop_last() =~= d.take(i - start));
        assert(d.take(i - start + 1).last() == c);
        acc = acc * 10 + digit;
        assert(all_digits(d.take(i - start + 1))) by {
            assert forall|j: int| 0 <= j < d.take(i - start + 1).len() implies '0' <= #[trigger] d.take(
                i - start + 1,
            )[j] <= '9' by {
                if j < i - start {
                    assert(d.take(i - start + 1)[j] == d.take(i - start)[j]);
                }
            }
        }
        if acc > 0xFFFF_FFFF {
            proof {
                if all_digits(d) {
                    lemma_digits_grow(d, i - start + 1);
                }
            }
            return None;
        }
        i += 1;
    }
    assert(d.take(i - start) =~= d);
    Some(acc as u32)
}

/// A state database's file name: `state_` … `.sqlite`.
pub open spec fn is_state_db_name(name: Seq<char>) -> bool {
    starts_with(name, "state_"@) && ends_with(name, ".sqlite"@)
}

/// The schema version in a state database's file name (`state_5.sqlite`
/// is 5), or 0 when what stands between `state_` and `.sqlite` is no
/// number.
pub open spec fn state_db_version(name: Seq<char>) -> nat {
    match parse_u32_spec(name.subrange(6, name.len() - 7)) {
        Some(v) => v as nat,
        None => 0,
    }
}

/// The state database among the file names of a folder: the one with the
/// greatest version, the last one listed among equals; `None` when there is
/// no state database.
pub fn pick_state_db(names: &[String]) -> (r: Option<usize>)
    ensures
        match r {
            None => forall|j: int| 0 <= j < names@.len() ==> !is_state_db_name(#[trigger] names@[j]@),
            Some(i) => {
                &&& i < names@.len()
                &&& is_state_db_name(names@[i as int]@)
                &&& forall|j: int|
                    0 <= j < names@.len() && is_state_db_name(#[trigger] names@[j]@)
                        ==> state_db_version(names@[j]@) <= state_db_version(names@[i as int]@)
                &&& forall|j: int|
                    i < j < names@.len() && is_state_db_name(#[trigger] names@[j]@)
                        ==> state_db_version(names@[j]@) < state_db_version(names@[i as int]@)
            },
        },
{
    proof {
        reveal_strlit("state_");
        reveal_strlit(".sqlite");
    }
    let prefix = chars_of("state_");
    let suffix = chars_of(".sqlite");
    let mut best: Option<usize> = None;
    let mut best_version: u32 = 0;
    let mut k: usize = 0;
    while k < names.len()
        invariant
            k <= names@.len(),
            prefix@ == "state_"@,
            suffix@ == ".sqlite"@,
            match best {
                None => forall|j: int| 0 <= j < k ==> !is_state_db_name(#[trigger] names@[j]@),
                Some(i) => {
                    &&& i < k
                    &&& is_state_db_name(names@[i as int]@)
                    &&& best_version as nat == state_db_version(names@[i as int]@)
                    &&& forall|j: int|
                        0 <= j < k && is_state_db_name(#[trigger] names@[j]@) ==> state_db_version(
                            names@[j]@,
                        ) <= best_version
                    &&& forall|j: int|
                        i < j < k && is_state_db_name(#[trigger] names@[j]@) ==> state_db_version(
                            names@[j]@,
                        ) < best_version
                },
            },
        decreases names@.len() - k,
    {
        let name = chars_of(names[k].as_str());
        if crate::text::starts_with_chars(name.as_slice(), prefix.as_slice())
            && crate::text::ends_with_chars(name.as_slice(), suffix.as_slice()) {
            proof {
                let n = name@;
                reveal_strlit("state_");
                reveal_strlit(".sqlite");
                assert(n.len() >= 7);
                assert(n.skip(n.len() - 7) == ".sqlite"@);
                assert(n.skip(n.len() - 7)[0] == '.');
                assert(n.take(6) == "state_"@);
                if n.len() < 13 {
                    assert(n.take(6)[n.len() - 7] == n[n.len() - 7]);
                }
            }
            let middle = crate::text::sub_chars(name.as_slice(), 6, name.len() - 7);
            let version = match parse_u32(crate::text::string_of(middle.as_slice()).as_str()) {
                Some(v) => v,
                None => 0,
            };
            if best.is_none() || version >= best_version {
                best = Some(k);
                best_version = version;
            }
        }
        k += 1;
    }
    best
}

} // verus!
