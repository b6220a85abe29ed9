//! Generic type names taken apart with the regular expressions of the `regex`
//! crate: `TFixedArray<(.*), *(.*)>`, `TPair<(.*), *(.*)>` and `ZHMPtrLen<(.*)>`.
use vstd::prelude::*;

verus! {

/// The pattern that takes a fixed array's type apart into its element type and
/// its length.
pub const FIXED_ARRAY_PARTS: &'static str = "TFixedArray<(.*), *(.*)>";

/// The pattern that takes a pair's type apart into its two types.
pub const PAIR_PARTS: &'static str = "TPair<(.*), *(.*)>";

/// The pattern that finds the element type of a pointer and length pair.
pub const PTR_LEN_PARTS: &'static str = "ZHMPtrLen<(.*)>";

/// What `regex::Regex::captures` finds in `text` for `pattern`: the texts of the
/// groups of the leftmost match, group 0 first, `None` for a group that took no
/// part in it; `None` where nothing matches or `regex::Regex::new` refuses the
/// pattern.
pub uninterp spec fn regex_captures(pattern: Seq<char>, text: Seq<char>) -> Option<Seq<Option<Seq<char>>>>;

/// The text of a group, where it took part in the match.
pub open spec fn group_text(g: Option<String>) -> Option<Seq<char>> {
    match g {
        Some(s) => Some(s@),
        None => None,
    }
}

/// Compiles `pattern` with `regex::Regex::new` and, where that succeeds, takes the
/// groups of its leftmost match in `text` with `regex::Regex::captures`; the result
/// is named `regex_captures`.
#[verifier::external_body]
fn captures(pattern: &str, text: &str) -> (r: Option<Vec<Option<String>>>)
    ensures
        r matches Some(g) ==> regex_captures(pattern@, text@) == Some(
            g@.map_values(|x: Option<String>| group_text(x)),
        ),
        r is None ==> regex_captures(pattern@, text@) is None,
{
    match lazy_regex::Regex::new(pattern) {
        Ok(re) => re.captures(text).map(
            |c| c.iter().map(|m| m.map(|m| m.as_str().to_string())).collect(),
        ),
        Err(_) => None,
    }
}

/// The first two groups of a match, where both took part in it.
pub open spec fn two_groups(c: Option<Seq<Option<Seq<char>>>>) -> Option<(Seq<char>, Seq<char>)> {
    match c {
        Some(g) => if g.len() >= 3 && g[1] is Some && g[2] is Some {
            Some((g[1]->0, g[2]->0))
        } else {
            None
        },
        None => None,
    }
}

/// The first group of a match, where it took part in it.
pub open spec fn one_group(c: Option<Seq<Option<Seq<char>>>>) -> Option<Seq<char>> {
    match c {
        Some(g) => if g.len() >= 2 && g[1] is Some {
            Some(g[1]->0)
        } else {
            None
        },
        None => None,
    }
}

/// The first two groups of the match of `pattern` in `text`.
pub fn match_two(pattern: &str, text: &str) -> (r: Option<(String, String)>)
    ensures
        r matches Some(p) ==> two_groups(regex_captures(pattern@, text@)) == Some((p.0@, p.1@)),
        r is None ==> two_groups(regex_captures(pattern@, text@)) is None,
{
    match captures(pattern, text) {
        Some(g) => {
            let ghost groups = g@.map_values(|x: Option<String>| group_text(x));
            if g.len() >= 3 {
                match (&g[1], &g[2]) {
                    (Some(a), Some(b)) => {
                        proof {
                            assert(groups[1] == group_text(g@[1]));
                            assert(groups[2] == group_text(g@[2]));
                        }
                        Some((a.clone(), b.clone()))
                    },
                    _ => {
                        proof {
                            assert(groups[1] == group_text(g@[1]));
                            assert(groups[2] == group_text(g@[2]));
                        }
                        None
                    },
                }
            } else {
                None
            }
        },
        None => None,
    }
}

/// The first group of the match of `pattern` in `text`.
pub fn match_one(pattern: &str, text: &str) -> (r: Option<String>)
    ensures
        r matches Some(s) ==> one_group(regex_captures(pattern@, text@)) == Some(s@),
        r is None ==> one_group(regex_captures(pattern@, text@)) is None,
{
    match captures(pattern, text) {
        Some(g) => {
            let ghost groups = g@.map_values(|x: Option<String>| group_text(x));
            if g.len() >= 2 {
                proof {
                    assert(groups[1] == group_text(g@[1]));
                }
                match &g[1] {
                    Some(a) => Some(a.clone()),
                    None => None,
                }
            } else {
                None
            }
        },
        None => None,
    }
}

} // verus!
