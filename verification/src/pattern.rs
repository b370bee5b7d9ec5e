//! Regular expressions, through the `regex` crate.

use regex::Regex;
use vstd::prelude::*;

verus! {

#[verifier::external_type_specification]
#[verifier::external_body]
pub struct ExRegex(Regex);

/// What `Regex::find` reports for the pattern `pattern` on `haystack`: the
/// text before the first match, the match, and the text after it (`None`
/// when nothing matches, or when the `regex` crate refuses the pattern).
pub uninterp spec fn regex_split_first(pattern: Seq<char>, haystack: Seq<char>) -> Option<
    (Seq<char>, Seq<char>, Seq<char>),
>;

/// What `Regex::captures` reports of group `group` for the pattern
/// `pattern` on `haystack` (`None` when nothing matches, when the group
/// takes no part in the match, or when the crate refuses the pattern).
pub uninterp spec fn regex_capture(pattern: Seq<char>, haystack: Seq<char>, group: nat) -> Option<
    Seq<char>,
>;

/// What `Regex::replace_all` makes of `haystack` for the pattern `pattern`
/// and the replacement template `replacement` (`$n` stands for group `n`);
/// `haystack` itself when the crate refuses the pattern.
pub uninterp spec fn regex_replace_all(
    pattern: Seq<char>,
    haystack: Seq<char>,
    replacement: Seq<char>,
) -> Seq<char>;

pub open spec fn split_view(r: Option<(String, String, String)>) -> Option<
    (Seq<char>, Seq<char>, Seq<char>),
> {
    match r {
        Some((a, b, c)) => Some((a@, b@, c@)),
        None => None,
    }
}

/// A regular expression together with the text it was compiled from.
pub struct Pattern {
    source: String,
    compiled: Option<Regex>,
}

impl Pattern {
    /// The text of the expression.
    pub closed spec fn source(&self) -> Seq<char> {
        self.source@
    }

    /// Compiles `source` with `Regex::new`; the contract states only that
    /// the text is kept.
    #[verifier::external_body]
    pub(crate) fn new(source: &str) -> (r: Pattern)
        ensures
            r.source() == source@,
    {
        Pattern { source: source.to_string(), compiled: Regex::new(source).ok() }
    }

    /// The first match of the expression in `haystack` (`Regex::find`), with
    /// the text before and after it. The contract names the result and
    /// states that the three pieces make up the haystack.
    #[verifier::external_body]
    pub(crate) fn split_first(&self, haystack: &str) -> (r: Option<(String, String, String)>)
        ensures
            split_view(r) == regex_split_first(self.source(), haystack@),
            r matches Some((a, b, c)) ==> a@ + b@ + c@ == haystack@,
    {
        let m = self.compiled.as_ref()?.find(haystack)?;
        Some(
            (
                haystack[..m.start()].to_string(),
                m.as_str().to_string(),
                haystack[m.end()..].to_string(),
            ),
        )
    }

    /// Group `group` of the first match in `haystack` (`Regex::captures`).
    /// The contract names the result.
    #[verifier::external_body]
    pub(crate) fn capture(&self, haystack: &str, group: usize) -> (r: Option<String>)
        ensures
            r matches Some(s) ==> regex_capture(self.source(), haystack@, group as nat) == Some(s@),
            r is None ==> regex_capture(self.source(), haystack@, group as nat) is None,
    {
        let caps = self.compiled.as_ref()?.captures(haystack)?;
        caps.get(group).map(|m| m.as_str().to_string())
    }

    /// Every match in `haystack` replaced by `replacement`
    /// (`Regex::replace_all`). The contract names the result.
    #[verifier::external_body]
    pub(crate) fn replace_all(&self, haystack: &str, replacement: &str) -> (r: String)
        ensures
            r@ == regex_replace_all(self.source(), haystack@, replacement@),
    {
        match &self.compiled {
            Some(re) => re.replace_all(haystack, replacement).into_owned(),
            None => haystack.to_string(),
        }
    }
}

} // verus!
