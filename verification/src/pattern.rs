//! Regular-expression tests of `matches(...)` predicates and of the
//! `Matches` operator, compiled and run with the `regex` crate.
use vstd::prelude::*;

verus! {

#[verifier::external_type_specification]
#[verifier::external_body]
pub struct ExRegex(regex::Regex);

/// Whether `regex::Regex::new` accepts `pattern`.
pub uninterp spec fn regex_compiles(pattern: Seq<char>) -> bool;

/// Whether the expression compiled from `pattern` finds a match anywhere in
/// `text` (`regex::Regex::is_match`).
pub uninterp spec fn regex_matches(pattern: Seq<char>, text: Seq<char>) -> bool;

/// Compiles `pattern` with `regex::Regex::new` (the crate's default size
/// limits). Claimed: the result is present exactly when the crate accepts the
/// pattern, which depends on the pattern alone. Nothing is claimed of what the
/// compiled expression matches here; see `pattern_is_match`.
#[verifier::external_body]
fn compile_regex(pattern: &str) -> (r: Option<regex::Regex>)
    ensures
        r is Some <==> regex_compiles(pattern@),
{
    regex::Regex::new(pattern).ok()
}

/// A compiled regular expression together with the pattern it came from.
/// The fields are private: a value is only made by `compile`, so the
/// expression is always the one compiled from `source`.
pub struct CompiledPattern {
    source: String,
    regex: regex::Regex,
}

/// Runs `regex::Regex::is_match` of the pattern's compiled expression on
/// `text`. Claimed: the answer is the crate's match test of the pattern that
/// the expression was compiled from, which depends on that pattern and the
/// text alone.
#[verifier::external_body]
fn pattern_is_match(p: &CompiledPattern, text: &str) -> (b: bool)
    ensures
        b == regex_matches(p.pattern(), text@),
{
    p.regex.is_match(text)
}

impl CompiledPattern {
    /// The pattern the expression was compiled from.
    pub closed spec fn pattern(&self) -> Seq<char> {
        self.source@
    }

    /// Compiles `pattern`; `None` when the `regex` crate rejects it.
    pub fn compile(pattern: &str) -> (r: Option<Self>)
        ensures
            r is Some <==> regex_compiles(pattern@),
            r matches Some(p) ==> p.pattern() == pattern@,
    {
        match compile_regex(pattern) {
            Some(regex) => Some(CompiledPattern { source: pattern.to_string(), regex }),
            None => None,
        }
    }

    /// The pattern text.
    pub fn as_str(&self) -> (s: &str)
        ensures
            s@ == self.pattern(),
    {
        self.source.as_str()
    }

    /// Whether the expression matches somewhere in `text`.
    pub fn is_match(&self, text: &str) -> (b: bool)
        ensures
            b == regex_matches(self.pattern(), text@),
    {
        pattern_is_match(self, text)
    }
}

} // verus!
