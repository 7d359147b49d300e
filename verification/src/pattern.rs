//! Regular expressions of the `regex` crate, compiled once and matched
//! against lines of SKILL source.
use vstd::prelude::*;

verus! {

/// The compiled regular expression type of `regex`, held opaque.
#[verifier::external_type_specification]
#[verifier::external_body]
pub struct ExRegex(regex::Regex);

/// Whether `Regex::new` accepts a pattern.
pub uninterp spec fn regex_valid(pattern: Seq<char>) -> bool;

/// What `Regex::captures` finds for a pattern in a haystack: `None` when
/// nothing matches; else the byte span `(start, end)` of each capture group
/// in group order (group 0 is the whole leftmost-first match), `None` for a
/// group that took no part in the match.
pub uninterp spec fn regex_captures(pattern: Seq<char>, haystack: Seq<char>) -> Option<Seq<Option<(usize, usize)>>>;

/// A compiled regular expression together with the pattern it was compiled from.
pub struct Pattern {
    re: regex::Regex,
    source: Ghost<Seq<char>>,
}

impl Pattern {
    /// The pattern this regular expression was compiled from.
    pub closed spec fn source(&self) -> Seq<char> {
        self.source@
    }
}

/// Calls `Regex::new`; it succeeds exactly on the patterns it accepts, and
/// the result remembers its pattern.
#[verifier::external_body]
pub(crate) fn compile(pattern: &str) -> (r: Option<Pattern>)
    ensures
        r is Some <==> regex_valid(pattern@),
        r matches Some(p) ==> p.source() == pattern@,
{
    match regex::Regex::new(pattern) {
        Ok(re) => Some(Pattern { re, source: Ghost(pattern@) }),
        Err(_) => None,
    }
}

/// Calls `Regex::captures` and lists the byte span of each group; the result
/// is the named outcome of matching the compiled pattern against `haystack`.
#[verifier::external_body]
pub(crate) fn captures(p: &Pattern, haystack: &str) -> (r: Option<Vec<Option<(usize, usize)>>>)
    ensures
        match r {
            Some(v) => regex_captures(p.source(), haystack@) == Some(v@),
            None => regex_captures(p.source(), haystack@) is None,
        },
{
    p.re.captures(haystack).map(|caps| caps.iter().map(|m| m.map(|m| (m.start(), m.end()))).collect())
}

} // verus!
