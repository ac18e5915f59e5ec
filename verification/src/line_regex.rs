//! Matching a line of text against a regular expression with the `regex`
//! crate.
use vstd::prelude::*;

verus! {

/// What `regex::Regex::new(pattern)` followed by `Regex::captures(text)`
/// gives: `None` when the pattern does not compile or does not match `text`;
/// otherwise, for each capture group in order (group 0 being the whole
/// match), the text it matched, or `None` when it took no part in the match.
pub uninterp spec fn regex_captures(pattern: Seq<char>, text: Seq<char>) -> Option<
    Seq<Option<Seq<char>>>,
>;

/// The views of captured groups.
pub open spec fn groups_view(g: Seq<Option<String>>) -> Seq<Option<Seq<char>>> {
    g.map_values(|o: Option<String>| crate::types::opt_view(o))
}

/// Compiles `pattern` with `regex::Regex::new` (a pattern that does not
/// compile gives `None`) and runs `Regex::captures` on `text`, copying the
/// text of each group (`Captures::iter`, `Match::as_str`). The contract
/// claims only that the result is `regex_captures(pattern, text)`, the same
/// for the same pattern and text: the regex crate's matching semantics
/// (Unicode classes, greedy and lazy repetition) are not stated.
#[verifier::external_body]
fn captures_of(pattern: &str, text: &str) -> (r: Option<Vec<Option<String>>>)
    ensures
        match r {
            Some(g) => regex_captures(pattern@, text@) == Some(groups_view(g@)),
            None => regex_captures(pattern@, text@) is None,
        },
{
    let re = regex::Regex::new(pattern).ok()?;
    let caps = re.captures(text)?;
    Some(caps.iter().map(|m| m.map(|m| m.as_str().to_string())).collect())
}

/// Capture group `i` of a match, if the match has it.
pub open spec fn group(caps: Option<Seq<Option<Seq<char>>>>, i: int) -> Option<Seq<char>> {
    match caps {
        Some(g) => if 0 <= i < g.len() {
            g[i]
        } else {
            None
        },
        None => None,
    }
}

/// Groups 1 and 2 of a match, when both are there.
pub open spec fn group_pair(caps: Option<Seq<Option<Seq<char>>>>) -> Option<(Seq<char>, Seq<char>)> {
    match (group(caps, 1), group(caps, 2)) {
        (Some(a), Some(b)) => Some((a, b)),
        _ => None,
    }
}

/// Groups 1 and 2 of the match of `pattern` on `text`, when both are there.
pub fn capture_pair(pattern: &str, text: &str) -> (r: Option<(String, String)>)
    ensures
        match r {
            Some((a, b)) => group_pair(regex_captures(pattern@, text@)) == Some((a@, b@)),
            None => group_pair(regex_captures(pattern@, text@)) is None,
        },
{
    match captures_of(pattern, text) {
        Some(g) => {
            if g.len() > 2 {
                match (&g[1], &g[2]) {
                    (Some(a), Some(b)) => Some((a.clone(), b.clone())),
                    _ => None,
                }
            } else {
                None
            }
        },
        None => None,
    }
}

/// Group 1 of the match of `pattern` on `text`, when it is there.
pub fn capture_first(pattern: &str, text: &str) -> (r: Option<String>)
    ensures
        match r {
            Some(a) => group(regex_captures(pattern@, text@), 1) == Some(a@),
            None => group(regex_captures(pattern@, text@), 1) is None,
        },
{
    match captures_of(pattern, text) {
        Some(g) => {
            if g.len() > 1 {
                match &g[1] {
                    Some(a) => Some(a.clone()),
                    None => None,
                }
            } else {
                None
            }
        },
        None => None,
    }
}

} // verus!
