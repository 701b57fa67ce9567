//! The content filter: a pattern that the rendered message of an event has
//! to match before the event is let through.

use crate::encoding::{contains, has_chars};
use vstd::prelude::*;

verus! {

/// `regex::Regex`, a compiled regular expression. Nothing of what it holds
/// is known here.
#[verifier::external_type_specification]
#[verifier::external_body]
pub struct ExRegex(regex::Regex);

/// `regex::Error`, the reason why a pattern did not compile. Nothing of
/// what it holds is known here.
#[verifier::external_type_specification]
#[verifier::external_body]
pub struct ExRegexError(regex::Error);

/// How a filter reads its pattern.
#[derive(Clone, Copy, Debug, PartialEq, Eq, Structural)]
pub enum FilterKind {
    /// The pattern is a regular expression, searched for anywhere in the
    /// message.
    Pattern,
    /// The pattern is plain text, searched for anywhere in the message.
    Plain,
}

/// A content filter. It keeps the pattern as it was written, and for the
/// regular-expression kind the compiled expression.
#[derive(Clone, Debug)]
pub struct Filter {
    pattern: String,
    regex: Option<regex::Regex>,
}

/// Compiles a pattern with `regex::Regex::new`. Whether a pattern compiles
/// is left to that crate: besides its syntax a size limit decides.
#[verifier::external_body]
fn compile(pattern: &str) -> (r: Result<regex::Regex, regex::Error>) {
    regex::Regex::new(pattern)
}

/// Searches `text` with `regex::Regex::is_match`. Nothing is stated of the
/// answer: it is the sense of the regular expression.
#[verifier::external_body]
fn regex_is_match(regex: &regex::Regex, text: &str) -> (b: bool) {
    regex.is_match(text)
}

/// Renders a compile error with `regex::Error`'s `Display`.
#[verifier::external_body]
fn error_text(error: &regex::Error) -> (s: String) {
    error.to_string()
}

impl Filter {
    /// The pattern as it was written.
    pub closed spec fn source(&self) -> Seq<char> {
        self.pattern@
    }

    /// How the pattern is read.
    pub closed spec fn kind(&self) -> FilterKind {
        if self.regex is Some {
            FilterKind::Pattern
        } else {
            FilterKind::Plain
        }
    }

    /// Whether a plain-text filter lets `text` through: the pattern occurs
    /// in `text`.
    pub open spec fn plain_match(&self, text: Seq<char>) -> bool {
        has_chars(text, self.source())
    }

    /// What becomes of the outcome of a compilation of `pattern`: a filter
    /// of the regular-expression kind, or the text of the error.
    pub fn from_compiled(pattern: &str, compiled: Result<regex::Regex, regex::Error>) -> (r: Result<
        Filter,
        String,
    >)
        ensures
            r is Ok <==> compiled is Ok,
            r matches Ok(f) ==> f.source() == pattern@ && f.kind() == FilterKind::Pattern,
    {
        match compiled {
            Ok(regex) => Ok(Filter { pattern: pattern.to_owned(), regex: Some(regex) }),
            Err(error) => Err(error_text(&error)),
        }
    }

    /// A filter that reads `spec` as a regular expression, or the text of
    /// the error where `spec` does not compile.
    pub fn new(spec: &str) -> (r: Result<Filter, String>)
        ensures
            r matches Ok(f) ==> f.source() == spec@ && f.kind() == FilterKind::Pattern,
    {
        Filter::from_compiled(spec, compile(spec))
    }

    /// A filter that reads `spec` as plain text.
    pub fn plain(spec: &str) -> (f: Filter)
        ensures
            f.source() == spec@,
            f.kind() == FilterKind::Plain,
    {
        Filter { pattern: spec.to_owned(), regex: None }
    }

    /// A filter of the given kind. The plain kind never fails.
    pub fn with_kind(spec: &str, kind: FilterKind) -> (r: Result<Filter, String>)
        ensures
            r matches Ok(f) ==> f.source() == spec@ && f.kind() == kind,
            kind == FilterKind::Plain ==> r is Ok,
    {
        match kind {
            FilterKind::Pattern => Filter::new(spec),
            FilterKind::Plain => Ok(Filter::plain(spec)),
        }
    }

    /// Whether the filter lets a message through.
    pub fn is_match(&self, s: &str) -> (b: bool)
        ensures
            self.kind() == FilterKind::Plain ==> b == self.plain_match(s@),
    {
        match &self.regex {
            Some(regex) => regex_is_match(regex, s),
            None => contains(s, self.pattern.as_str()),
        }
    }

    /// The pattern as it was written.
    pub fn to_string(&self) -> (s: String)
        ensures
            s@ == self.source(),
    {
        self.pattern.clone()
    }

    /// How the pattern is read.
    pub fn strategy(&self) -> (k: FilterKind)
        ensures
            k == self.kind(),
    {
        match &self.regex {
            Some(_) => FilterKind::Pattern,
            None => FilterKind::Plain,
        }
    }
}

} // verus!
