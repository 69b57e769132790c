//! The regular-expression searches of the scanner, made with the `regex`
//! crate. Each search is named by an uninterpreted function: the same
//! pattern and text always give the same result.
use vstd::prelude::*;

use vstd::string::StringSliceAdditionalSpecFns;

use crate::text::opt_string;

verus! {

/// One match of a function-definition pattern: the byte offset where the
/// match starts and the text of capture groups 1 and 2.
#[derive(Debug, Clone)]
pub struct RegexCapture {
    pub start: usize,
    pub name: Option<String>,
    pub params: Option<String>,
}

impl View for RegexCapture {
    type V = (usize, Option<Seq<char>>, Option<Seq<char>>);

    open spec fn view(&self) -> (usize, Option<Seq<char>>, Option<Seq<char>>) {
        (self.start, opt_string(self.name), opt_string(self.params))
    }
}

/// What `regex::Regex::captures_iter` yields for `pattern` over `haystack`,
/// in order: the start of each match and its groups 1 and 2 (empty when the
/// pattern does not compile).
pub uninterp spec fn spec_regex_captures(pattern: Seq<char>, haystack: Seq<char>) -> Seq<
    (usize, Option<Seq<char>>, Option<Seq<char>>),
>;

/// Compiles `pattern` with `regex::Regex::new` and collects
/// `Regex::captures_iter` over `haystack`. The contract names the result,
/// and states what the crate documents of `Match::start`: it is a byte
/// offset into the haystack on a character boundary.
#[verifier::external_body]
pub(crate) fn regex_captures(pattern: &str, haystack: &str) -> (r: Vec<RegexCapture>)
    ensures
        r@.map_values(|c: RegexCapture| c@) == spec_regex_captures(pattern@, haystack@),
        forall|i: int|
            0 <= i < r@.len() ==> (#[trigger] r@[i]).start <= haystack.spec_bytes().len()
                && vstd::utf8::is_char_boundary(haystack.spec_bytes(), r@[i].start as int),
{
    match regex::Regex::new(pattern) {
        Ok(re) => re.captures_iter(haystack).map(|c| RegexCapture {
            start: c.get_match().start(),
            name: c.get(1).map(|m| m.as_str().to_string()),
            params: c.get(2).map(|m| m.as_str().to_string()),
        }).collect(),
        Err(_) => Vec::new(),
    }
}

/// The start offsets of what `regex::Regex::find_iter` yields for
/// `pattern` over `haystack` (empty when the pattern does not compile).
pub uninterp spec fn spec_regex_match_starts(pattern: Seq<char>, haystack: Seq<char>) -> Seq<usize>;

/// Compiles `pattern` with `regex::Regex::new` and collects the start of
/// each match of `Regex::find_iter` over `haystack`; the contract names the
/// result.
#[verifier::external_body]
pub(crate) fn regex_match_starts(pattern: &str, haystack: &str) -> (r: Vec<usize>)
    ensures
        r@ == spec_regex_match_starts(pattern@, haystack@),
{
    match regex::Regex::new(pattern) {
        Ok(re) => re.find_iter(haystack).map(|m| m.start()).collect(),
        Err(_) => Vec::new(),
    }
}

/// What `regex::Regex::replace` returns: `haystack` with its first match of
/// `pattern` replaced by `rep` (`haystack` itself when the pattern does not
/// compile).
pub uninterp spec fn spec_regex_replace_first(
    pattern: Seq<char>,
    haystack: Seq<char>,
    rep: Seq<char>,
) -> Seq<char>;

/// Compiles `pattern` with `regex::Regex::new` and calls `Regex::replace`
/// on `haystack` with the replacement `rep`; the contract names the result.
#[verifier::external_body]
pub(crate) fn regex_replace_first(pattern: &str, haystack: &str, rep: &str) -> (r: String)
    ensures
        r@ == spec_regex_replace_first(pattern@, haystack@, rep@),
{
    match regex::Regex::new(pattern) {
        Ok(re) => re.replace(haystack, rep).into_owned(),
        Err(_) => haystack.to_string(),
    }
}

} // verus!
