//! Regular expressions and semantic versions, as the `regex`, `semver` and
//! `http` crates compute them.
//!
//! What those crates compute takes pages to state, so their results carry
//! names: a compiled pattern and a parsed version are known here by the text
//! they were made from.

use vstd::prelude::*;

verus! {

#[verifier::external_type_specification]
#[verifier::external_body]
pub struct ExRegex(regex::Regex);

#[verifier::external_type_specification]
#[verifier::external_body]
pub struct ExVersion(semver::Version);

/// Whether `regex::Regex::new` accepts the pattern.
pub uninterp spec fn regex_compiles(pattern: Seq<char>) -> bool;

/// The byte range of the leftmost-first match that `regex::Regex::find`
/// reports for the pattern in the text, if there is one.
pub uninterp spec fn regex_find(pattern: Seq<char>, text: Seq<char>) -> Option<(usize, usize)>;

/// What `regex::Regex::captures` reports for the pattern in the text, read at
/// a named group: `None` when the pattern does not match, `Some(None)` when it
/// matches but the group took no part in the match.
pub uninterp spec fn regex_capture(pattern: Seq<char>, text: Seq<char>, group: Seq<char>) -> Option<Option<Seq<char>>>;

/// Whether `semver::Version::parse` accepts the text.
pub uninterp spec fn semver_parses(text: Seq<char>) -> bool;

/// Whether the version parsed from `a` orders at or below the version parsed
/// from `b` (`<=` of `semver::Version`).
pub uninterp spec fn semver_le(a: Seq<char>, b: Seq<char>) -> bool;

/// Whether `http::Uri` parses the text.
pub uninterp spec fn uri_parses(text: Seq<char>) -> bool;

/// A captured group as text: the view of what `CompiledRegex::capture` returns.
pub open spec fn capture_view(r: Option<Option<String>>) -> Option<Option<Seq<char>>> {
    match r {
        None => None,
        Some(None) => Some(None),
        Some(Some(s)) => Some(Some(s@)),
    }
}

/// A compiled regular expression, known by its pattern.
pub struct CompiledRegex {
    pattern: String,
    regex: regex::Regex,
}

impl View for CompiledRegex {
    type V = Seq<char>;

    closed spec fn view(&self) -> Seq<char> {
        self.pattern@
    }
}

/// A parsed semantic version, known by the text it was parsed from.
pub struct SemVersion {
    text: String,
    version: semver::Version,
}

impl View for SemVersion {
    type V = Seq<char>;

    closed spec fn view(&self) -> Seq<char> {
        self.text@
    }
}

/// Compiles a pattern with `regex::Regex::new`; `None` where it returns an
/// error. Claims that the outcome is `regex_compiles` of the pattern.
#[verifier::external_body]
pub(crate) fn compile_regex(pattern: &str) -> (r: Option<CompiledRegex>)
    ensures
        r.is_some() == regex_compiles(pattern@),
        r matches Some(c) ==> c@ == pattern@,
{
    match regex::Regex::new(pattern) {
        Ok(regex) => Some(CompiledRegex { pattern: pattern.to_string(), regex }),
        Err(_) => None,
    }
}

impl CompiledRegex {
    /// `regex::Regex::find` on the text, the match given by its byte range.
    /// Claims that the result is `regex_find` of the pattern and the text.
    #[verifier::external_body]
    pub(crate) fn find(&self, text: &str) -> (r: Option<(usize, usize)>)
        ensures
            r == regex_find(self@, text@),
    {
        self.regex.find(text).map(|m| (m.start(), m.end()))
    }

    /// `regex::Regex::captures` on the text, read at the named group with
    /// `Captures::name`. Claims that the result is `regex_capture` of the
    /// pattern, the text and the group.
    #[verifier::external_body]
    pub(crate) fn capture(&self, text: &str, group: &str) -> (r: Option<Option<String>>)
        ensures
            capture_view(r) == regex_capture(self@, text@, group@),
    {
        self.regex.captures(text).map(|c| c.name(group).map(|m| m.as_str().to_string()))
    }
}

/// Parses a version with `semver::Version::parse`; `None` where it returns
/// an error. Claims that the outcome is `semver_parses` of the text.
#[verifier::external_body]
pub(crate) fn parse_version(text: &str) -> (r: Option<SemVersion>)
    ensures
        r.is_some() == semver_parses(text@),
        r matches Some(v) ==> v@ == text@,
{
    match semver::Version::parse(text) {
        Ok(version) => Some(SemVersion { text: text.to_string(), version }),
        Err(_) => None,
    }
}

/// `<=` on two parsed versions (the order that `semver::Version` derives).
/// Claims that the result is `semver_le` of the texts they were parsed from.
#[verifier::external_body]
pub(crate) fn version_le(a: &SemVersion, b: &SemVersion) -> (r: bool)
    ensures
        r == semver_le(a@, b@),
{
    a.version <= b.version
}

/// Whether `text.parse::<http::Uri>()` succeeds. Claims that the outcome is
/// `uri_parses` of the text.
#[verifier::external_body]
pub(crate) fn parses_as_uri(text: &str) -> (r: bool)
    ensures
        r == uri_parses(text@),
{
    text.parse::<http::Uri>().is_ok()
}

} // verus!
