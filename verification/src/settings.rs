//! The desktop app's settings, and the language it shows by default.
use crate::text::{
    chars_of, contains_seq, lower_chars, lower_seq, starts_with, str_contains, str_equal,
    str_starts_with, string_of,
};
use vstd::prelude::*;

verus! {

/// The language the app shows.
#[derive(Debug, Clone, Copy, PartialEq, Eq, Structural)]
pub enum LanguagePreference {
    System,
    Chinese,
    English,
}

/// The app's settings.
#[derive(Debug, Clone)]
pub struct AppSettings {
    pub language: LanguagePreference,
}

impl Default for AppSettings {
    /// The language follows the system.
    fn default() -> (s: Self)
        ensures
            s.language == LanguagePreference::System,
    {
        AppSettings { language: LanguagePreference::System }
    }
}

impl AppSettings {
    /// Whether the app shows Chinese: when chosen, or when the language
    /// follows a system that speaks Chinese.
    pub fn speaks_chinese(&self, system_chinese: bool) -> (r: bool)
        ensures
            r == match self.language {
                LanguagePreference::System => system_chinese,
                LanguagePreference::Chinese => true,
                LanguagePreference::English => false,
            },
    {
        match self.language {
            LanguagePreference::System => system_chinese,
            LanguagePreference::Chinese => true,
            LanguagePreference::English => false,
        }
    }
}

/// A locale that names a language: not `C`, `POSIX` or a `C.` locale
/// (ignoring ASCII case).
pub open spec fn names_language(locale: Seq<char>) -> bool {
    let l = lower_seq(locale);
    l != "c"@ && l != "posix"@ && !starts_with(l, "c."@)
}

/// The locale that the environment sets: `LC_ALL` unless it is empty, else
/// `LC_MESSAGES`, else `LANG`; `None` when that is unset or names no
/// language.
pub fn environment_locale(lc_all: Option<&str>, lc_messages: Option<&str>, lang: Option<&str>) -> (r:
    Option<String>)
    ensures
        ({
            let chosen = match lc_all {
                Some(v) => if v@.len() > 0 {
                    Some(v@)
                } else {
                    match lc_messages {
                        Some(m) => Some(m@),
                        None => match lang {
                            Some(l) => Some(l@),
                            None => None,
                        },
                    }
                },
                None => match lc_messages {
                    Some(m) => Some(m@),
                    None => match lang {
                        Some(l) => Some(l@),
                        None => None,
                    },
                },
            };
            crate::json::opt_chars(r) == match chosen {
                Some(c) => if names_language(c) {
                    Some(c)
                } else {
                    None
                },
                None => None,
            }
        }),
{
    let chosen: Option<&str> = match lc_all {
        Some(v) => {
            if !v.is_empty() {
                Some(v)
            } else {
                match lc_messages {
                    Some(m) => Some(m),
                    None => lang,
                }
            }
        },
        None => match lc_messages {
            Some(m) => Some(m),
            None => lang,
        },
    };
    match chosen {
        Some(c) => {
            let l = string_of(lower_chars(chars_of(c).as_slice()).as_slice());
            if !str_equal(l.as_str(), "c") && !str_equal(l.as_str(), "posix") && !str_starts_with(
                l.as_str(),
                "c.",
            ) {
                Some(c.to_owned())
            } else {
                None
            }
        },
        None => None,
    }
}

/// Whether a locale is Chinese: it begins with `zh` or holds `_cn` or `-cn`
/// (ignoring ASCII case).
pub fn system_is_chinese(locale: &str) -> (r: bool)
    ensures
        r == ({
            let l = lower_seq(locale@);
            starts_with(l, "zh"@) || contains_seq(l, "_cn"@) || contains_seq(l, "-cn"@)
        }),
{
    let l = string_of(lower_chars(chars_of(locale).as_slice()).as_slice());
    str_starts_with(l.as_str(), "zh") || str_contains(l.as_str(), "_cn") || str_contains(
        l.as_str(),
        "-cn",
    )
}

} // verus!
