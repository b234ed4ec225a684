//! Regular expressions together with the text they were compiled from.
//!
//! A `CompiledRegex` can only be made by `compile_regex` in this module, which
//! records the source text beside the regex that `regex` compiled from it.
use vstd::prelude::*;

verus! {

#[verifier::external_type_specification]
#[verifier::external_body]
pub struct ExRegex(regex::Regex);

#[verifier::external_type_specification]
#[verifier::external_body]
pub struct ExRegexError(regex::Error);

/// Whether `regex::Regex::new` accepts `pattern`.
pub uninterp spec fn regex_compiles(pattern: Seq<char>) -> bool;

/// Whether the regex built from `pattern` matches somewhere in `haystack`
/// (`regex::Regex::is_match`).
pub uninterp spec fn regex_finds(pattern: Seq<char>, haystack: Seq<char>) -> bool;

/// A compiled regular expression and the text it was compiled from.
pub struct CompiledRegex {
    regex: regex::Regex,
    source: Ghost<Seq<char>>,
}

impl CompiledRegex {
    /// The text the regex was compiled from.
    pub closed spec fn source(&self) -> Seq<char> {
        self.source@
    }

    /// `regex::Regex::is_match`. Claimed: the answer is `regex_finds` of the
    /// regex's source text and `text`; the empty pattern matches every text.
    #[verifier::external_body]
    pub(crate) fn is_match(&self, text: &str) -> (res: bool)
        ensures
            res == regex_finds(self.source(), text@),
            self.source().len() == 0 ==> res,
    {
        self.regex.is_match(text)
    }
}

/// `regex::Regex::new`, with the pattern recorded as the regex's source.
/// Claimed: it succeeds exactly when the pattern is one the crate accepts
/// (named `regex_compiles`; for patterns near the crate's size limit this
/// depends on the target's pointer width, which is fixed within one build),
/// and the empty pattern is accepted and, matching the empty string at the
/// start of every text, matches every text.
#[verifier::external_body]
pub(crate) fn compile_regex(pattern: &str) -> (res: Result<CompiledRegex, regex::Error>)
    ensures
        res is Ok <==> regex_compiles(pattern@),
        res matches Ok(r) ==> r.source() == pattern@,
        pattern@.len() == 0 ==> res is Ok,
        res is Ok && pattern@.len() == 0 ==> forall|x: Seq<char>| #[trigger] regex_finds(pattern@, x),
{
    regex::Regex::new(pattern).map(|regex| CompiledRegex { regex, source: Ghost(pattern@) })
}

} // verus!
