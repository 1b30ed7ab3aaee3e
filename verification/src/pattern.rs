//! Regular-expression matching, done by the `regex` crate.
//!
//! The patterns themselves belong to the library and are passed in by the
//! callers; these items only run them.
use vstd::prelude::*;

verus! {

/// Whether `regex::Regex::new(pattern)` compiles and its `is_match` finds a
/// match in `text` (false when the pattern does not compile).
pub uninterp spec fn spec_regex_is_match(pattern: Seq<char>, text: Seq<char>) -> bool;

/// Compiles `pattern` with `regex::Regex::new` and calls `Regex::is_match` on
/// `text`. The answer is named by [`spec_regex_is_match`]; a pattern that does
/// not compile gives `false`.
#[verifier::external_body]
pub(crate) fn regex_is_match(pattern: &str, text: &str) -> (r: bool)
    ensures
        r == spec_regex_is_match(pattern@, text@),
{
    match regex::Regex::new(pattern) {
        Ok(re) => re.is_match(text),
        Err(_) => false,
    }
}

/// What `Regex::replace_all(text, replacement)` returns for the compiled
/// `pattern` (the text unchanged when the pattern does not compile).
pub uninterp spec fn spec_regex_replace_all(
    pattern: Seq<char>,
    text: Seq<char>,
    replacement: Seq<char>,
) -> Seq<char>;

/// Compiles `pattern` with `regex::Regex::new` and calls
/// `Regex::replace_all`; the result is named by [`spec_regex_replace_all`].
#[verifier::external_body]
pub(crate) fn regex_replace_all(pattern: &str, text: &str, replacement: &str) -> (r: String)
    ensures
        r@ == spec_regex_replace_all(pattern@, text@, replacement@),
{
    match regex::Regex::new(pattern) {
        Ok(re) => re.replace_all(text, replacement).into_owned(),
        Err(_) => text.to_string(),
    }
}

/// What `Regex::replace(text, replacement)` (first match only) returns for
/// the compiled `pattern` (the text unchanged when it does not compile).
pub uninterp spec fn spec_regex_replace_first(
    pattern: Seq<char>,
    text: Seq<char>,
    replacement: Seq<char>,
) -> Seq<char>;

/// Compiles `pattern` with `regex::Regex::new` and calls `Regex::replace`;
/// the result is named by [`spec_regex_replace_first`].
#[verifier::external_body]
pub(crate) fn regex_replace_first(pattern: &str, text: &str, replacement: &str) -> (r: String)
    ensures
        r@ == spec_regex_replace_first(pattern@, text@, replacement@),
{
    match regex::Regex::new(pattern) {
        Ok(re) => re.replace(text, replacement).into_owned(),
        Err(_) => text.to_string(),
    }
}

/// The pieces that `Regex::split(text)` yields for the compiled `pattern`
/// (the whole text as one piece when the pattern does not compile).
pub uninterp spec fn spec_regex_split(pattern: Seq<char>, text: Seq<char>) -> Seq<Seq<char>>;

/// Compiles `pattern` with `regex::Regex::new` and collects `Regex::split`;
/// the pieces are named by [`spec_regex_split`].
#[verifier::external_body]
pub(crate) fn regex_split(pattern: &str, text: &str) -> (r: Vec<String>)
    ensures
        r@.len() == spec_regex_split(pattern@, text@).len(),
        forall|i: int| 0 <= i < r@.len() ==> #[trigger] r@[i]@ == spec_regex_split(pattern@, text@)[i],
{
    match regex::Regex::new(pattern) {
        Ok(re) => re.split(text).map(str::to_string).collect(),
        Err(_) => vec![text.to_string()],
    }
}

/// The texts that optional strings hold, each as it is.
pub open spec fn optional_texts(s: Seq<Option<String>>) -> Seq<Option<Seq<char>>> {
    s.map_values(|o: Option<String>| match o {
        Some(t) => Some(t@),
        None => None,
    })
}

/// The first group of each match of the compiled `pattern` in `text`, in
/// order, as `Regex::captures_iter` finds them: its text, or `None` where the
/// group took no part in the match; nothing when the pattern does not
/// compile.
pub uninterp spec fn spec_regex_first_groups(pattern: Seq<char>, text: Seq<char>) -> Seq<Option<Seq<char>>>;

/// Compiles `pattern` with `regex::Regex::new` and gives the first group of
/// each capture of `Regex::captures_iter`; the groups are named by
/// [`spec_regex_first_groups`].
#[verifier::external_body]
pub(crate) fn regex_first_groups(pattern: &str, text: &str) -> (r: Vec<Option<String>>)
    ensures
        optional_texts(r@) == spec_regex_first_groups(pattern@, text@),
{
    match regex::Regex::new(pattern) {
        Ok(re) => re
            .captures_iter(text)
            .map(|captures| captures.get(1).map(|group| group.as_str().to_string()))
            .collect(),
        Err(_) => Vec::new(),
    }
}

} // verus!
