//! Regular expressions, compiled and matched by the `regex` crate.
use vstd::prelude::*;

verus! {

/// Whether `regex::Regex::new` accepts a pattern.
pub uninterp spec fn pattern_compiles(p: Seq<char>) -> bool;

/// Whether the compiled pattern matches somewhere in a text (`regex::Regex::is_match`).
pub uninterp spec fn pattern_matches(p: Seq<char>, t: Seq<char>) -> bool;

/// Compiles `pattern` with `regex::Regex::new` and, when that succeeds, tests `text`
/// with `Regex::is_match`. Trusted: the result is `None` exactly when the pattern does
/// not compile (`pattern_compiles`), and otherwise whether it matches (`pattern_matches`);
/// what the regular expression language accepts is not stated.
#[verifier::external_body]
pub(crate) fn regex_is_match(pattern: &str, text: &str) -> (r: Option<bool>)
    ensures
        r.is_some() == pattern_compiles(pattern@),
        r.is_some() ==> r.unwrap() == pattern_matches(pattern@, text@),
{
    match regex::Regex::new(pattern) {
        Ok(re) => Some(re.is_match(text)),
        Err(_) => None,
    }
}

/// The matches of a pattern in a text, left to right without overlap, each as its
/// capture groups (group 0 being the whole match), `None` for a group that took no
/// part (`regex::Regex::captures_iter`).
pub uninterp spec fn pattern_captures(p: Seq<char>, t: Seq<char>) -> Seq<Seq<Option<Seq<char>>>>;

/// The text with every match of a pattern replaced by `rep`, expanded as
/// `regex::Regex::replace_all` expands a replacement.
pub uninterp spec fn pattern_replaced(p: Seq<char>, t: Seq<char>, rep: Seq<char>) -> Seq<char>;

/// Model of the capture groups of the matches.
pub open spec fn captures_model(v: Seq<Vec<Option<String>>>) -> Seq<Seq<Option<Seq<char>>>> {
    v.map_values(
        |c: Vec<Option<String>>|
            c@.map_values(
                |g: Option<String>|
                    match g {
                        Some(x) => Some(x@),
                        None => None,
                    },
            ),
    )
}

/// Compiles `pattern` with `regex::Regex::new` and lists the capture groups of every
/// match in `text` (`Regex::captures_iter`, each capture's groups by `Captures::iter`).
/// Trusted: `None` exactly when the pattern does not compile, otherwise the groups
/// named `pattern_captures`; what the pattern matches is not stated.
#[verifier::external_body]
pub(crate) fn regex_captures(pattern: &str, text: &str) -> (r: Option<Vec<Vec<Option<String>>>>)
    ensures
        r.is_some() == pattern_compiles(pattern@),
        r.is_some() ==> captures_model(r.unwrap()@) == pattern_captures(pattern@, text@),
{
    let re = regex::Regex::new(pattern).ok()?;
    Some(
        re.captures_iter(text).map(|c| c.iter().map(|g| g.map(|m| m.as_str().to_string())).collect())
            .collect(),
    )
}

/// Compiles `pattern` with `regex::Regex::new` and replaces every match in `text` by
/// `rep` (`Regex::replace_all`). Trusted: `None` exactly when the pattern does not
/// compile, otherwise the text named `pattern_replaced`.
#[verifier::external_body]
pub(crate) fn regex_replace_all(pattern: &str, text: &str, rep: &str) -> (r: Option<String>)
    ensures
        r.is_some() == pattern_compiles(pattern@),
        r.is_some() ==> r.unwrap()@ == pattern_replaced(pattern@, text@, rep@),
{
    let re = regex::Regex::new(pattern).ok()?;
    Some(re.replace_all(text, rep).to_string())
}

} // verus!
