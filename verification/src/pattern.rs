//! Compiled metric-name patterns. Compilation and matching are done by
//! the `regex` crate behind trusted wrappers; the rest of the core only
//! sees the pattern's source text and the two named results below.

use vstd::prelude::*;

verus! {

#[verifier::external_type_specification]
#[verifier::external_body]
pub struct ExRegex(regex::Regex);

#[verifier::external_type_specification]
#[verifier::external_body]
pub struct ExRegexError(regex::Error);

/// Whether `regex::Regex::new` accepts the pattern `pat`: a fixed
/// function of the pattern text alone.
pub uninterp spec fn pattern_compiles(pat: Seq<char>) -> bool;

/// Whether the pattern `pat` matches anywhere in `text`, as decided by
/// `regex::Regex::is_match`: a fixed function of the two texts alone.
pub uninterp spec fn pattern_accepts(pat: Seq<char>, text: Seq<char>) -> bool;

/// A compiled pattern together with the source text it was compiled
/// from. The only way to build one is `Pattern::compile`, which keeps
/// the two fields in step.
pub struct Pattern {
    source: String,
    compiled: regex::Regex,
}

/// Relies on regex::Regex::new: compilation succeeds exactly for valid
/// patterns, and the compiled value matches as its source dictates.
#[verifier::external_body]
fn regex_compile(source: &str) -> (r: Result<regex::Regex, regex::Error>)
    ensures
        r is Ok <==> pattern_compiles(source@),
{
    regex::Regex::new(source)
}

/// Relies on regex::Regex::is_match: the answer is a fixed function of
/// the pattern's source and the haystack. Sound because `compiled` is
/// only ever the output of `regex_compile` on `source`.
#[verifier::external_body]
fn regex_is_match(p: &Pattern, text: &str) -> (r: bool)
    ensures
        r == pattern_accepts(p.spec_source(), text@),
{
    p.compiled.is_match(text)
}

impl Pattern {
    /// The source text this pattern was compiled from.
    pub closed spec fn spec_source(&self) -> Seq<char> {
        self.source@
    }

    /// Compile `source`; fails exactly when the pattern is invalid.
    pub fn compile(source: &str) -> (r: Result<Pattern, regex::Error>)
        ensures
            r is Ok <==> pattern_compiles(source@),
            r is Ok ==> r.unwrap().spec_source() == source@,
    {
        match regex_compile(source) {
            Ok(compiled) => Ok(Pattern { source: source.to_owned(), compiled }),
            Err(e) => Err(e),
        }
    }

    /// Whether this pattern matches anywhere in `text`.
    pub fn is_match(&self, text: &str) -> (r: bool)
        ensures
            r == pattern_accepts(self.spec_source(), text@),
    {
        regex_is_match(self, text)
    }
}

} // verus!
