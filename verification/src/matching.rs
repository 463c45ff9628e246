//! Regular-expression matching, delegated to the `regex` crate.
use vstd::prelude::*;

verus! {

/// What `regex::Regex::new(pattern)` followed by `Regex::is_match(haystack)`
/// gives: `None` when the pattern does not compile, else whether it matches.
pub uninterp spec fn regex_match_result(pattern: Seq<char>, haystack: Seq<char>) -> Option<bool>;

/// What `regex::Regex::new(pattern)` followed by `Regex::captures(haystack)`
/// gives: `None` when the pattern does not compile; `Some(None)` when nothing
/// matches; else the text of each capture group of the first match, group 0
/// first, `None` for a group that took no part in it.
pub uninterp spec fn regex_captures_result(pattern: Seq<char>, haystack: Seq<char>) -> Option<
    Option<Seq<Option<Seq<char>>>>,
>;

pub open spec fn opt_str_view(o: Option<String>) -> Option<Seq<char>> {
    match o {
        Some(s) => Some(s@),
        None => None,
    }
}

pub open spec fn groups_view(groups: Vec<Option<String>>) -> Seq<Option<Seq<char>>> {
    groups@.map_values(|g: Option<String>| opt_str_view(g))
}

pub open spec fn captures_view(r: Option<Option<Vec<Option<String>>>>) -> Option<
    Option<Seq<Option<Seq<char>>>>,
> {
    match r {
        None => None,
        Some(None) => Some(None),
        Some(Some(groups)) => Some(Some(groups_view(groups))),
    }
}

/// Compiles `pattern` with `regex::Regex::new` and tests it on `haystack`
/// with `Regex::is_match`. The contract only ties the answer to the two
/// strings through `regex_match_result`; what the pattern language means is
/// the `regex` crate's and is not restated here.
#[verifier::external_body]
pub(crate) fn regex_is_match(pattern: &str, haystack: &str) -> (r: Option<bool>)
    ensures
        r == regex_match_result(pattern@, haystack@),
{
    match regex::Regex::new(pattern) {
        Ok(re) => Some(re.is_match(haystack)),
        Err(_) => None,
    }
}

/// Compiles `pattern` with `regex::Regex::new` and takes the first match's
/// capture groups with `Regex::captures`, each as owned text. The contract
/// ties the result to the two strings through `regex_captures_result` and
/// says nothing more about the pattern language.
#[verifier::external_body]
pub(crate) fn regex_captures(pattern: &str, haystack: &str) -> (r: Option<
    Option<Vec<Option<String>>>,
>)
    ensures
        captures_view(r) == regex_captures_result(pattern@, haystack@),
{
    match regex::Regex::new(pattern) {
        Ok(re) => Some(
            re.captures(haystack).map(
                |c| c.iter().map(|m| m.map(|m| m.as_str().to_string())).collect(),
            ),
        ),
        Err(_) => None,
    }
}

} // verus!
