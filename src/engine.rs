//! The compiled pattern, backed by the regex crate.
use vstd::prelude::*;
use vstd::string::*;

verus! {

#[verifier::external_type_specification]
#[verifier::external_body]
pub struct ExRegex(regex::Regex);

#[verifier::external_type_specification]
#[verifier::external_body]
pub struct ExRegexError(regex::Error);

/// Whether the regex crate compiles `pattern`, case-insensitively unless
/// `case_sensitive`: the pattern is valid syntax and within the size limits.
pub uninterp spec fn regex_accepts(pattern: Seq<char>, case_sensitive: bool) -> bool;

/// The byte offsets within `line` at which the successive non-overlapping,
/// leftmost-first matches of the compiled `pattern` start.
pub uninterp spec fn match_starts(pattern: Seq<char>, case_sensitive: bool, line: Seq<char>) -> Seq<
    usize,
>;

/// Each offset is larger than the one before it.
pub open spec fn increasing(s: Seq<usize>) -> bool {
    forall|j: int, k: int| 0 <= j < k < s.len() ==> s[j] < s[k]
}

/// A compiled pattern, with the pattern text and the case flag it was built from.
pub struct Matcher {
    regex: regex::Regex,
    pattern: Ghost<Seq<char>>,
    case_sensitive: Ghost<bool>,
}

/// Relies on regex::RegexBuilder::build: compiles `pattern`, with
/// case-insensitive matching (Unicode simple case folding) unless
/// `case_sensitive`; it fails exactly on the patterns the crate rejects.
#[verifier::external_body]
fn build_regex(pattern: &str, case_sensitive: bool) -> (r: Result<regex::Regex, regex::Error>)
    ensures
        r is Ok <==> regex_accepts(pattern@, case_sensitive),
{
    regex::RegexBuilder::new(pattern).case_insensitive(!case_sensitive).build()
}

/// Relies on regex::Regex::find_iter and regex::Match::start: the starts of
/// the successive non-overlapping matches in `line`, as byte offsets. Each
/// start lies within the line, and since matches do not overlap and an empty
/// match moves the search on, every start is past the one before.
/// `m.regex` was built by `Matcher::new` from `m.pattern` and `m.case_sensitive`.
#[verifier::external_body]
fn find_match_starts(m: &Matcher, line: &str) -> (r: Vec<usize>)
    ensures
        r@ == match_starts(m.pattern@, m.case_sensitive@, line@),
        increasing(r@),
        forall|k: int| 0 <= k < r.len() ==> r@[k] <= line.spec_bytes().len(),
{
    m.regex.find_iter(line).map(|x| x.start()).collect()
}

impl Matcher {
    /// The pattern text this matcher was compiled from.
    pub closed spec fn pattern(&self) -> Seq<char> {
        self.pattern@
    }

    /// Whether this matcher tells upper from lower case.
    pub closed spec fn case_sensitive(&self) -> bool {
        self.case_sensitive@
    }

    /// Compiles `pattern`; fails when the regex crate rejects it.
    pub fn new(pattern: &str, case_sensitive: bool) -> (r: Result<Matcher, regex::Error>)
        ensures
            r is Ok <==> regex_accepts(pattern@, case_sensitive),
            r is Ok ==> r->Ok_0.pattern() == pattern@ && r->Ok_0.case_sensitive()
                == case_sensitive,
    {
        match build_regex(pattern, case_sensitive) {
            Ok(regex) => Ok(
                Matcher { regex, pattern: Ghost(pattern@), case_sensitive: Ghost(case_sensitive) },
            ),
            Err(e) => Err(e),
        }
    }

    /// The byte offsets at which the matches in `line` start, left to right.
    pub fn find_starts(&self, line: &str) -> (r: Vec<usize>)
        ensures
            r@ == match_starts(self.pattern(), self.case_sensitive(), line@),
            increasing(r@),
            forall|k: int| 0 <= k < r.len() ==> r@[k] <= line.spec_bytes().len(),
    {
        find_match_starts(self, line)
    }
}

} // verus!
