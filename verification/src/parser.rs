//! The specification grammar: a list of directives, separated by commas,
//! and behind a `/` the pattern of a content filter.

use crate::directive::{views, Directive, LogDirective};
use crate::filter::{Filter, FilterKind};
use crate::level::{level_of_text, parse_level, FilterLevel};
use crate::text::{chars_of, find, first_index, lemma_first_index, trim, trim_range};
use vstd::prelude::*;

verus! {

/// What was wrong with a part of a specification. Each part that is wrong is
/// left out and reported; none stops the reading.
#[derive(Clone, Debug, PartialEq, Eq)]
pub enum SpecWarning {
    /// The specification holds more than one `/` and is ignored as a whole.
    /// Carries the specification.
    TooManySlashes(String),
    /// A directive holds more than one `=`. Carries the directive.
    InvalidDirective(String),
    /// The level of a directive is no level. Carries the level as written,
    /// without the white space around it.
    InvalidLevel(String),
    /// The pattern of the content filter does not compile. Carries the text
    /// of the error.
    InvalidFilter(String),
}

/// A warning as a mathematical value.
pub enum Warning {
    TooManySlashes(Seq<char>),
    InvalidDirective(Seq<char>),
    InvalidLevel(Seq<char>),
    InvalidFilter(Seq<char>),
}

impl View for SpecWarning {
    type V = Warning;

    open spec fn view(&self) -> Warning {
        match self {
            SpecWarning::TooManySlashes(s) => Warning::TooManySlashes(s@),
            SpecWarning::InvalidDirective(s) => Warning::InvalidDirective(s@),
            SpecWarning::InvalidLevel(s) => Warning::InvalidLevel(s@),
            SpecWarning::InvalidFilter(s) => Warning::InvalidFilter(s@),
        }
    }
}

/// The warnings of a list as mathematical values.
pub open spec fn warning_views(warnings: Seq<SpecWarning>) -> Seq<Warning> {
    warnings.map_values(|w: SpecWarning| w@)
}

impl Warning {
    /// The line that reports the warning.
    pub open spec fn line(self) -> Seq<char> {
        match self {
            Warning::TooManySlashes(s) => "warning: invalid logging spec '"@ + s
                + "', ignoring it (too many '/'s)"@,
            Warning::InvalidDirective(s) => "warning: invalid logging spec '"@ + s
                + "', ignoring it"@,
            Warning::InvalidLevel(s) => "warning: invalid logging spec '"@ + s + "', ignoring it"@,
            Warning::InvalidFilter(s) => "warning: invalid regex filter - "@ + s,
        }
    }
}

impl SpecWarning {
    /// The line that reports the warning.
    pub fn message(&self) -> (line: String)
        ensures
            line@ == self@.line(),
    {
        match self {
            SpecWarning::TooManySlashes(s) => {
                let mut line = String::from_str("warning: invalid logging spec '");
                line.append(s.as_str());
                line.append("', ignoring it (too many '/'s)");
                line
            },
            SpecWarning::InvalidDirective(s) => {
                let mut line = String::from_str("warning: invalid logging spec '");
                line.append(s.as_str());
                line.append("', ignoring it");
                line
            },
            SpecWarning::InvalidLevel(s) => {
                let mut line = String::from_str("warning: invalid logging spec '");
                line.append(s.as_str());
                line.append("', ignoring it");
                line
            },
            SpecWarning::InvalidFilter(s) => {
                let mut line = String::from_str("warning: invalid regex filter - ");
                line.append(s.as_str());
                line
            },
        }
    }
}

/// What one item of the directive list is read as.
pub enum Reading {
    /// The item is empty and stands for nothing.
    Blank,
    /// The item is a directive.
    Rule(Directive),
    /// The item is left out.
    Rejected(Warning),
}

/// Reads one item of the directive list.
///
/// An item without `=` is a level for all modules where it reads as a
/// level, else a module at the highest level. An item with one `=` is a
/// module and its level, the highest where nothing but white space follows
/// the `=`. An item with a level that is none, or with a second `=`, is
/// left out.
pub open spec fn read_directive(item: Seq<char>) -> Reading {
    let eq = first_index(item, '=');
    if item.len() == 0 {
        Reading::Blank
    } else if eq == item.len() {
        match level_of_text(item) {
            Some(level) => Reading::Rule(Directive { name: None, level }),
            None => Reading::Rule(Directive { name: Some(item), level: FilterLevel::Trace }),
        }
    } else if item.skip(eq + 1).contains('=') {
        Reading::Rejected(Warning::InvalidDirective(item))
    } else {
        let name = item.take(eq);
        let level_text = trim(item.skip(eq + 1));
        if level_text.len() == 0 {
            Reading::Rule(Directive { name: Some(name), level: FilterLevel::Trace })
        } else {
            match level_of_text(level_text) {
                Some(level) => Reading::Rule(Directive { name: Some(name), level }),
                None => Reading::Rejected(Warning::InvalidLevel(level_text)),
            }
        }
    }
}

/// The directive that a reading gives, if any.
pub open spec fn rule_of(reading: Reading) -> Seq<Directive> {
    match reading {
        Reading::Rule(d) => seq![d],
        _ => Seq::empty(),
    }
}

/// The warning that a reading gives, if any.
pub open spec fn warning_of(reading: Reading) -> Seq<Warning> {
    match reading {
        Reading::Rejected(w) => seq![w],
        _ => Seq::empty(),
    }
}

/// The directives of a comma-separated list, in the order of the list.
pub open spec fn listed_rules(list: Seq<char>) -> Seq<Directive>
    decreases list.len(),
{
    let comma = first_index(list, ',');
    if 0 <= comma < list.len() {
        rule_of(read_directive(list.take(comma))) + listed_rules(list.skip(comma + 1))
    } else {
        rule_of(read_directive(list))
    }
}

/// The warnings for the items of a comma-separated list that are left out,
/// in the order of the list.
pub open spec fn listed_warnings(list: Seq<char>) -> Seq<Warning>
    decreases list.len(),
{
    let comma = first_index(list, ',');
    if 0 <= comma < list.len() {
        warning_of(read_directive(list.take(comma))) + listed_warnings(list.skip(comma + 1))
    } else {
        warning_of(read_directive(list))
    }
}

/// What a specification is read as, before the pattern is compiled.
pub struct SpecReading {
    pub directives: Seq<Directive>,
    pub pattern: Option<Seq<char>>,
    pub warnings: Seq<Warning>,
}

/// Reads a specification: the directive list up to the first `/`, and the
/// pattern behind it. With a second `/` nothing is taken from it.
pub open spec fn read_spec(spec: Seq<char>) -> SpecReading {
    let slash = first_index(spec, '/');
    if slash == spec.len() {
        SpecReading {
            directives: listed_rules(spec),
            pattern: None,
            warnings: listed_warnings(spec),
        }
    } else if spec.skip(slash + 1).contains('/') {
        SpecReading {
            directives: Seq::empty(),
            pattern: None,
            warnings: seq![Warning::TooManySlashes(spec)],
        }
    } else {
        SpecReading {
            directives: listed_rules(spec.take(slash)),
            pattern: Some(spec.skip(slash + 1)),
            warnings: listed_warnings(spec.take(slash)),
        }
    }
}

/// One item of the directive list, read.
#[derive(Clone, Debug, PartialEq, Eq)]
pub enum Scanned {
    Blank,
    Rule(LogDirective),
    Rejected(SpecWarning),
}

impl View for Scanned {
    type V = Reading;

    open spec fn view(&self) -> Reading {
        match self {
            Scanned::Blank => Reading::Blank,
            Scanned::Rule(d) => Reading::Rule(d@),
            Scanned::Rejected(w) => Reading::Rejected(w@),
        }
    }
}

/// Reads one item of the directive list.
pub fn parse_directive(item: &str) -> (r: Scanned)
    ensures
        r@ == read_directive(item@),
{
    let chars = chars_of(item);
    let n = chars.len();
    if n == 0 {
        return Scanned::Blank;
    }
    let eq = find(&chars, 0, n, '=');
    proof {
        assert(chars@.subrange(0, n as int) == item@);
    }
    if eq == n {
        return match parse_level(item) {
            Some(level) => Scanned::Rule(LogDirective { name: None, level }),
            None => Scanned::Rule(
                LogDirective { name: Some(item.to_owned()), level: FilterLevel::max() },
            ),
        };
    }
    let second = find(&chars, eq + 1, n, '=');
    proof {
        assert(chars@.subrange(eq + 1, n as int) == item@.skip(eq + 1));
        lemma_first_index(item@.skip(eq + 1), '=');
    }
    if second < n {
        return Scanned::Rejected(SpecWarning::InvalidDirective(item.to_owned()));
    }
    let name = item.substring_char(0, eq);
    let (from, to) = trim_range(&chars, eq + 1, n);
    proof {
        assert(item@.subrange(0, eq as int) == item@.take(eq as int));
    }
    if from == to {
        proof {
            assert(chars@.subrange(from as int, to as int).len() == 0);
        }
        return Scanned::Rule(
            LogDirective { name: Some(name.to_owned()), level: FilterLevel::max() },
        );
    }
    let level_text = item.substring_char(from, to);
    match parse_level(level_text) {
        Some(level) => Scanned::Rule(LogDirective { name: Some(name.to_owned()), level }),
        None => Scanned::Rejected(SpecWarning::InvalidLevel(level_text.to_owned())),
    }
}

/// The directives of a list and the warnings for what was left out.
pub struct ListScan {
    pub directives: Vec<LogDirective>,
    pub warnings: Vec<SpecWarning>,
}

/// Reads a comma-separated list of directives.
pub fn parse_directives(list: &str) -> (r: ListScan)
    ensures
        views(r.directives@) == listed_rules(list@),
        warning_views(r.warnings@) == listed_warnings(list@),
{
    let chars = chars_of(list);
    let n = chars.len();
    let mut directives: Vec<LogDirective> = Vec::new();
    let mut warnings: Vec<SpecWarning> = Vec::new();
    let mut pos: usize = 0;
    proof {
        assert(list@.skip(0) == list@);
        assert(views(directives@) + listed_rules(list@) == listed_rules(list@));
        assert(warning_views(warnings@) + listed_warnings(list@) == listed_warnings(list@));
    }
    loop
        invariant
            chars@ == list@,
            n == chars.len(),
            pos <= n,
            views(directives@) + listed_rules(list@.skip(pos as int)) == listed_rules(list@),
            warning_views(warnings@) + listed_warnings(list@.skip(pos as int)) == listed_warnings(
                list@,
            ),
        decreases n - pos,
    {
        let comma = find(&chars, pos, n, ',');
        let ghost rest = list@.skip(pos as int);
        let ghost seen_rules = views(directives@);
        let ghost seen_warnings = warning_views(warnings@);
        proof {
            assert(chars@.subrange(pos as int, n as int) == rest);
            assert(rest.take(comma - pos) == list@.subrange(pos as int, comma as int));
            assert(rest.take(rest.len() as int) == rest);
        }
        let scanned = parse_directive(list.substring_char(pos, comma));
        match scanned {
            Scanned::Blank => {},
            Scanned::Rule(d) => {
                directives.push(d);
            },
            Scanned::Rejected(w) => {
                warnings.push(w);
            },
        }
        proof {
            assert(views(directives@) == seen_rules + rule_of(scanned@));
            assert(warning_views(warnings@) == seen_warnings + warning_of(scanned@));
        }
        if comma == n {
            return ListScan { directives, warnings };
        }
        proof {
            let behind = list@.skip(comma + 1);
            assert(rest.skip(comma - pos + 1) == behind);
            assert(seen_rules + (rule_of(scanned@) + listed_rules(behind)) == (seen_rules
                + rule_of(scanned@)) + listed_rules(behind));
            assert(seen_warnings + (warning_of(scanned@) + listed_warnings(behind)) == (
            seen_warnings + warning_of(scanned@)) + listed_warnings(behind));
        }
        pos = comma + 1;
    }
}

/// A specification as read, before the pattern is compiled.
pub struct SpecScan {
    pub directives: Vec<LogDirective>,
    pub pattern: Option<String>,
    pub warnings: Vec<SpecWarning>,
}

impl View for SpecScan {
    type V = SpecReading;

    open spec fn view(&self) -> SpecReading {
        SpecReading {
            directives: views(self.directives@),
            pattern: match self.pattern {
                Some(p) => Some(p@),
                None => None,
            },
            warnings: warning_views(self.warnings@),
        }
    }
}

/// Reads a specification up to the pattern, which it hands back as written.
pub fn scan_spec(spec: &str) -> (r: SpecScan)
    ensures
        r@ == read_spec(spec@),
{
    let chars = chars_of(spec);
    let n = chars.len();
    let slash = find(&chars, 0, n, '/');
    proof {
        assert(chars@.subrange(0, n as int) == spec@);
    }
    if slash == n {
        let scan = parse_directives(spec);
        return SpecScan { directives: scan.directives, pattern: None, warnings: scan.warnings };
    }
    let second = find(&chars, slash + 1, n, '/');
    proof {
        assert(chars@.subrange(slash + 1, n as int) == spec@.skip(slash + 1));
        lemma_first_index(spec@.skip(slash + 1), '/');
    }
    if second < n {
        let mut warnings: Vec<SpecWarning> = Vec::new();
        warnings.push(SpecWarning::TooManySlashes(spec.to_owned()));
        let r = SpecScan { directives: Vec::new(), pattern: None, warnings };
        proof {
            assert(r@.directives == Seq::<Directive>::empty());
            assert(r@.warnings == seq![Warning::TooManySlashes(spec@)]);
        }
        return r;
    }
    let scan = parse_directives(spec.substring_char(0, slash));
    let pattern = spec.substring_char(slash + 1, n).to_owned();
    proof {
        assert(spec@.subrange(0, slash as int) == spec@.take(slash as int));
        assert(spec@.subrange(slash + 1, n as int) == spec@.skip(slash + 1));
    }
    SpecScan { directives: scan.directives, pattern: Some(pattern), warnings: scan.warnings }
}

/// A specification as read, with its content filter.
pub struct ParsedSpec {
    pub directives: Vec<LogDirective>,
    pub filter: Option<Filter>,
    pub warnings: Vec<SpecWarning>,
}

/// Whether `filter` is what becomes of the pattern of a specification that
/// is made a filter of the given kind: none without a pattern; else a filter
/// of that kind with the pattern as written, or none where a regular
/// expression did not compile.
pub open spec fn filter_from(
    pattern: Option<Seq<char>>,
    kind: FilterKind,
    filter: Option<Filter>,
) -> bool {
    match (pattern, filter) {
        (None, None) => true,
        (None, Some(_)) => false,
        (Some(pattern), Some(filter)) => filter.source() == pattern && filter.kind() == kind,
        (Some(_), None) => kind == FilterKind::Pattern,
    }
}

/// Whether `warnings` are those of a reading, `read`, followed by one for
/// the pattern where it did not compile.
pub open spec fn warnings_from(read: Seq<Warning>, failed: bool, warnings: Seq<Warning>) -> bool {
    if failed {
        &&& warnings.len() == read.len() + 1
        &&& warnings.drop_last() == read
        &&& warnings.last() is InvalidFilter
    } else {
        warnings == read
    }
}

/// Whether `parsed` is what comes of `reading` when the pattern, if there is
/// one, is made a filter of the given kind: the directives as read; the
/// filter with the pattern as written, or none with one more warning.
pub open spec fn parsed_from(reading: SpecReading, kind: FilterKind, parsed: ParsedSpec) -> bool {
    &&& views(parsed.directives@) == reading.directives
    &&& filter_from(reading.pattern, kind, parsed.filter)
    &&& warnings_from(
        reading.warnings,
        reading.pattern is Some && parsed.filter is None,
        warning_views(parsed.warnings@),
    )
}

/// Joins what was read with the outcome of making the filter: `made` is
/// `None` where there was no pattern.
pub fn finish_spec(scan: SpecScan, made: Option<Result<Filter, String>>) -> (r: ParsedSpec)
    ensures
        r.directives == scan.directives,
        match made {
            None => r.filter is None && r.warnings == scan.warnings,
            Some(Ok(filter)) => r.filter == Some(filter) && r.warnings == scan.warnings,
            Some(Err(error)) => r.filter is None && r.warnings@ == scan.warnings@.push(
                SpecWarning::InvalidFilter(error),
            ),
        },
{
    let SpecScan { directives, pattern: _, warnings } = scan;
    let mut warnings = warnings;
    match made {
        None => ParsedSpec { directives, filter: None, warnings },
        Some(Ok(filter)) => ParsedSpec { directives, filter: Some(filter), warnings },
        Some(Err(error)) => {
            warnings.push(SpecWarning::InvalidFilter(error));
            ParsedSpec { directives, filter: None, warnings }
        },
    }
}

/// Reads a specification and makes its pattern a filter of the given kind.
/// A pattern that does not compile leaves the specification without filter
/// and adds a warning.
pub fn parse_spec(spec: &str, kind: FilterKind) -> (r: ParsedSpec)
    ensures
        parsed_from(read_spec(spec@), kind, r),
{
    let scan = scan_spec(spec);
    let made = match &scan.pattern {
        Some(pattern) => Some(Filter::with_kind(pattern.as_str(), kind)),
        None => None,
    };
    let ghost seen = warning_views(scan.warnings@);
    let ghost failed = made matches Some(Err(_));
    let r = finish_spec(scan, made);
    proof {
        if failed {
            assert(warning_views(r.warnings@).drop_last() == seen);
        }
    }
    r
}

/// Reads a specification such as `crate1,crate2::mod3,crate3::x=error/foo`:
/// its directives in the order written, and its content filter, read as a
/// regular expression.
pub fn parse_logging_spec(spec: &str) -> (r: (Vec<LogDirective>, Option<Filter>))
    ensures
        views(r.0@) == read_spec(spec@).directives,
        filter_from(read_spec(spec@).pattern, FilterKind::Pattern, r.1),
{
    let parsed = parse_spec(spec, FilterKind::Pattern);
    (parsed.directives, parsed.filter)
}

} // verus!
