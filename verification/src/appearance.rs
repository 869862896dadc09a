//! The user's appearance choice, persisted as a plain word.

use vstd::prelude::*;
use crate::text::{is_white_space, str_equals, trim, trim_end, trim_start, trimmed};

verus! {

/// User's appearance choice. Persisted as a plain string.
#[derive(Debug, Clone, Copy, PartialEq, Eq, Structural)]
pub enum Appearance {
    Light,
    Dark,
    System,
}

/// The word under which an appearance is persisted.
pub open spec fn appearance_word(a: Appearance) -> Seq<char> {
    match a {
        Appearance::Light => "light"@,
        Appearance::Dark => "dark"@,
        Appearance::System => "system"@,
    }
}

/// The appearance that a persisted text stands for: the trimmed text
/// `light` or `dark`, and `System` for anything else.
pub open spec fn appearance_of(s: Seq<char>) -> Appearance {
    if trimmed(s) == "light"@ {
        Appearance::Light
    } else if trimmed(s) == "dark"@ {
        Appearance::Dark
    } else {
        Appearance::System
    }
}

impl Default for Appearance {
    fn default() -> (r: Self)
        ensures
            r == Appearance::System,
    {
        Appearance::System
    }
}

impl Appearance {
    pub fn as_str(self) -> (r: &'static str)
        ensures
            r@ == appearance_word(self),
    {
        match self {
            Appearance::Light => {
                proof {
                    reveal_strlit("light");
                }
                "light"
            },
            Appearance::Dark => {
                proof {
                    reveal_strlit("dark");
                }
                "dark"
            },
            Appearance::System => {
                proof {
                    reveal_strlit("system");
                }
                "system"
            },
        }
    }

    pub fn parse(s: &str) -> (r: Self)
        ensures
            r == appearance_of(s@),
    {
        let t = trim(s);
        if str_equals(t, "light") {
            Appearance::Light
        } else if str_equals(t, "dark") {
            Appearance::Dark
        } else {
            Appearance::System
        }
    }
}

/// Parsing the persisted word of an appearance gives that appearance back.
pub proof fn lemma_parse_as_str_roundtrip(a: Appearance)
    ensures
        appearance_of(appearance_word(a)) == a,
{
    reveal_strlit("light");
    reveal_strlit("dark");
    reveal_strlit("system");
    let w = appearance_word(a);
    assert(!is_white_space(w[0]) && !is_white_space(w.last()));
    assert(trim_start(w) == w);
    assert(trim_end(w) == w);
}

} // verus!
