//! The logger: a list of directives in ascending order of name length, an
//! optional content filter, and the drain that it decides for.

use crate::directive::{
    allowed, enabled_by, is_stable_sort, sort_by_name_len, views, Directive, LogDirective,
};
use crate::filter::{Filter, FilterKind};
use crate::level::{FilterLevel, Level};
use crate::parser::{
    filter_from, parse_spec, read_spec, warning_views, warnings_from, ParsedSpec, SpecWarning,
};
use vstd::prelude::*;

verus! {

/// Decides for a drain which events reach it.
pub struct EnvLogger<T> {
    pub drain: T,
    pub directives: Vec<LogDirective>,
    pub filter: Option<Filter>,
}

/// Collects directives and a content filter, and builds an `EnvLogger`
/// from them.
pub struct LogBuilder<T> {
    drain: T,
    directives: Vec<LogDirective>,
    filter: Option<Filter>,
    kind: FilterKind,
    warnings: Vec<SpecWarning>,
}

/// What is to become of an event.
#[derive(Clone, Copy, Debug, PartialEq, Eq, Structural)]
pub enum Verdict {
    /// The event is dropped.
    Drop,
    /// The event goes on to the drain.
    Forward,
    /// The content filter decides: the message has to be rendered and
    /// shown to it.
    Inspect,
}

/// The rule of a logger that was given none: errors pass, from every module.
pub open spec fn fallback() -> Directive {
    Directive { name: None, level: FilterLevel::Error }
}

/// Whether `output` is the list that a logger keeps for the directives
/// `input`: the fallback alone where there are none, else `input` after a
/// stable sort by name length.
pub open spec fn built_from(input: Seq<Directive>, output: Seq<Directive>) -> bool {
    if input.len() == 0 {
        output == seq![fallback()]
    } else {
        is_stable_sort(input, output)
    }
}

/// Whether `level` is the highest level among `dirs`, or `Off` for none.
pub open spec fn is_highest(dirs: Seq<Directive>, level: FilterLevel) -> bool {
    &&& forall|i: int| 0 <= i < dirs.len() ==> (#[trigger] dirs[i]).level.rank() <= level.rank()
    &&& if dirs.len() == 0 {
        level == FilterLevel::Off
    } else {
        exists|i: int| 0 <= i < dirs.len() && (#[trigger] dirs[i]).level == level
    }
}

/// The verdict before the message is looked at.
pub open spec fn first_verdict(enabled: bool, filtered: bool) -> Verdict {
    if !enabled {
        Verdict::Drop
    } else if filtered {
        Verdict::Inspect
    } else {
        Verdict::Forward
    }
}

/// Whether an event passes: its level is enabled for its module, and the
/// content filter, where there is one, matched its message. `matched` is
/// `None` without a filter.
pub open spec fn passes(enabled: bool, matched: Option<bool>) -> bool {
    enabled && matched != Some(false)
}

/// Decides `passes`.
pub fn gate(enabled: bool, matched: Option<bool>) -> (b: bool)
    ensures
        b == passes(enabled, matched),
        !enabled ==> !b,
        matched == Some(false) ==> !b,
{
    match matched {
        Some(hit) => enabled && hit,
        None => enabled,
    }
}

impl<T> LogBuilder<T> {
    /// The drain that the logger will decide for.
    pub closed spec fn drain(&self) -> T {
        self.drain
    }

    /// The directives collected so far, in the order given.
    pub closed spec fn rules(&self) -> Seq<Directive> {
        views(self.directives@)
    }

    /// The content filter collected so far.
    pub closed spec fn content_filter(&self) -> Option<Filter> {
        self.filter
    }

    /// The kind of filter that `parse` makes of a pattern.
    pub closed spec fn kind(&self) -> FilterKind {
        self.kind
    }

    /// The warnings collected so far.
    pub closed spec fn noted(&self) -> Seq<SpecWarning> {
        self.warnings@
    }

    /// A builder without directives and without filter, which reads
    /// patterns as regular expressions.
    pub fn new(d: T) -> (b: Self)
        ensures
            b.drain() == d,
            b.rules() == Seq::<Directive>::empty(),
            b.content_filter() is None,
            b.kind() == FilterKind::Pattern,
            b.noted() == Seq::<SpecWarning>::empty(),
    {
        LogBuilder {
            drain: d,
            directives: Vec::new(),
            filter: None,
            kind: FilterKind::Pattern,
            warnings: Vec::new(),
        }
    }

    /// Adds a directive: events of the modules under `module`, or of all
    /// modules without one, pass up to `level`.
    pub fn filter(self, module: Option<&str>, level: FilterLevel) -> (b: Self)
        ensures
            b.rules() == self.rules().push(
                Directive {
                    name: match module {
                        Some(m) => Some(m@),
                        None => None,
                    },
                    level,
                },
            ),
            b.drain() == self.drain(),
            b.content_filter() == self.content_filter(),
            b.kind() == self.kind(),
            b.noted() == self.noted(),
    {
        let mut b = self;
        let name = match module {
            Some(m) => Some(m.to_owned()),
            None => None,
        };
        let d = LogDirective { name, level };
        b.directives.push(d);
        proof {
            assert(views(b.directives@) == views(self.directives@).push(d@));
        }
        b
    }

    /// Chooses how `parse` reads the pattern of a content filter from here
    /// on.
    pub fn filter_kind(self, kind: FilterKind) -> (b: Self)
        ensures
            b.kind() == kind,
            b.rules() == self.rules(),
            b.drain() == self.drain(),
            b.content_filter() == self.content_filter(),
            b.noted() == self.noted(),
    {
        let mut b = self;
        b.kind = kind;
        b
    }

    /// Takes in what was parsed from a specification: its directives are
    /// added, its filter takes the place of the one so far, its warnings
    /// are added.
    pub fn install(self, parsed: ParsedSpec) -> (b: Self)
        ensures
            b.rules() == self.rules() + views(parsed.directives@),
            b.content_filter() == parsed.filter,
            b.noted() == self.noted() + parsed.warnings@,
            b.drain() == self.drain(),
            b.kind() == self.kind(),
    {
        let mut b = self;
        let ParsedSpec { directives, filter, warnings } = parsed;
        let mut directives = directives;
        let mut warnings = warnings;
        b.filter = filter;
        b.directives.append(&mut directives);
        b.warnings.append(&mut warnings);
        proof {
            assert(views(b.directives@) == views(self.directives@) + views(parsed.directives@));
        }
        b
    }

    /// Reads a specification in the form of the `RUST_LOG` environment
    /// variable. Its directives are added to those so far; its filter, or
    /// none, takes the place of the filter so far.
    pub fn parse(self, filters: &str) -> (b: Self)
        ensures
            b.rules() == self.rules() + read_spec(filters@).directives,
            filter_from(read_spec(filters@).pattern, self.kind(), b.content_filter()),
            b.noted().take(self.noted().len() as int) == self.noted(),
            warnings_from(
                read_spec(filters@).warnings,
                read_spec(filters@).pattern is Some && b.content_filter() is None,
                warning_views(b.noted().skip(self.noted().len() as int)),
            ),
            b.drain() == self.drain(),
            b.kind() == self.kind(),
    {
        let parsed = parse_spec(filters, self.kind);
        let b = self.install(parsed);
        proof {
            assert(b.noted().take(self.noted().len() as int) == self.noted());
            assert(b.noted().skip(self.noted().len() as int) == parsed.warnings@);
        }
        b
    }

    /// The warnings of the specifications parsed so far.
    pub fn warnings(&self) -> (w: &Vec<SpecWarning>)
        ensures
            w@ == self.noted(),
    {
        &self.warnings
    }

    /// Builds the logger: with the fallback where no directive was given,
    /// else with the directives in ascending order of name length.
    pub fn build(self) -> (logger: EnvLogger<T>)
        ensures
            built_from(self.rules(), views(logger.directives@)),
            logger.filter == self.content_filter(),
            logger.drain == self.drain(),
    {
        let LogBuilder { drain, directives, filter, kind: _, warnings: _ } = self;
        let mut directives = directives;
        if directives.len() == 0 {
            directives.push(LogDirective { name: None, level: FilterLevel::Error });
            proof {
                assert(views(directives@) == seq![fallback()]);
            }
        } else {
            directives = sort_by_name_len(directives);
        }
        EnvLogger { drain, directives, filter }
    }
}

impl<T> EnvLogger<T> {
    /// A logger for the specification in `rust_log`, the value of the
    /// `RUST_LOG` environment variable where it is set, with the warnings
    /// for what was wrong in it.
    pub fn new(d: T, rust_log: Option<&str>) -> (r: (Self, Vec<SpecWarning>))
        ensures
            r.0.drain == d,
            match rust_log {
                Some(spec) => {
                    &&& built_from(read_spec(spec@).directives, views(r.0.directives@))
                    &&& filter_from(read_spec(spec@).pattern, FilterKind::Pattern, r.0.filter)
                    &&& warnings_from(
                        read_spec(spec@).warnings,
                        read_spec(spec@).pattern is Some && r.0.filter is None,
                        warning_views(r.1@),
                    )
                },
                None => {
                    &&& views(r.0.directives@) == seq![fallback()]
                    &&& r.0.filter is None
                    &&& r.1@.len() == 0
                },
            },
    {
        match rust_log {
            Some(spec) => {
                let ParsedSpec { directives, filter, warnings } = parse_spec(
                    spec,
                    FilterKind::Pattern,
                );
                let builder = LogBuilder {
                    drain: d,
                    directives,
                    filter,
                    kind: FilterKind::Pattern,
                    warnings: Vec::new(),
                };
                (builder.build(), warnings)
            },
            None => (LogBuilder::new(d).build(), Vec::new()),
        }
    }

    /// The highest level that any directive lets through; `Off` without
    /// directives.
    pub fn filter(&self) -> (level: FilterLevel)
        ensures
            is_highest(views(self.directives@), level),
    {
        let mut level = FilterLevel::Off;
        let mut i: usize = 0;
        while i < self.directives.len()
            invariant
                i <= self.directives.len(),
                is_highest(views(self.directives@).take(i as int), level),
            decreases self.directives.len() - i,
        {
            let ghost seen = views(self.directives@).take(i as int);
            let ghost next = views(self.directives@).take(i + 1);
            let candidate = self.directives[i].level;
            proof {
                assert(next.drop_last() == seen);
                assert(next.last().level == candidate);
                assert forall|j: int| 0 <= j < i implies next[j] == seen[j] by {}
            }
            if candidate.as_usize() > level.as_usize() {
                level = candidate;
                proof {
                    assert(next[i as int].level == level);
                }
            } else {
                proof {
                    if i > 0 {
                        let j = choose|j: int|
                            0 <= j < seen.len() && (#[trigger] seen[j]).level == level;
                        assert(next[j].level == level);
                    }
                }
            }
            i = i + 1;
        }
        proof {
            assert(views(self.directives@).take(self.directives.len() as int) == views(
                self.directives@,
            ));
        }
        level
    }

    /// Whether events of `level` from `module` are let through: the last
    /// directive that covers `module` decides, and nothing passes where
    /// none covers it.
    pub fn enabled(&self, level: Level, module: &str) -> (b: bool)
        ensures
            b == allowed(views(self.directives@), level, module@),
    {
        enabled_by(&self.directives, level, module)
    }

    /// What is to become of an event of `level` from `module`, as far as
    /// that can be said without its message.
    pub fn check(&self, level: Level, module: &str) -> (v: Verdict)
        ensures
            v == first_verdict(
                allowed(views(self.directives@), level, module@),
                self.filter is Some,
            ),
    {
        if !self.enabled(level, module) {
            Verdict::Drop
        } else if self.filter.is_some() {
            Verdict::Inspect
        } else {
            Verdict::Forward
        }
    }

    /// Shows a rendered message to the content filter: `None` without a
    /// filter, else whether the filter matched.
    pub fn inspect(&self, message: &str) -> (matched: Option<bool>)
        ensures
            matched is Some <==> self.filter is Some,
            self.filter matches Some(f) ==> (f.kind() == FilterKind::Plain ==> matched == Some(
                f.plain_match(message@),
            )),
    {
        match &self.filter {
            Some(filter) => Some(filter.is_match(message)),
            None => None,
        }
    }

    /// Whether an event of `level` from `module` with the rendered
    /// `message` goes on to the drain: its level is enabled for its module
    /// and the content filter, where there is one, matches the message.
    pub fn allows(&self, level: Level, module: &str, message: &str) -> (b: bool)
        ensures
            b ==> allowed(views(self.directives@), level, module@),
            self.filter is None ==> b == allowed(views(self.directives@), level, module@),
            self.filter matches Some(f) ==> (f.kind() == FilterKind::Plain ==> b == (allowed(
                views(self.directives@),
                level,
                module@,
            ) && f.plain_match(message@))),
    {
        gate(self.enabled(level, module), self.inspect(message))
    }
}

/// A logger for the specification in `rust_log`, the value of the
/// `RUST_LOG` environment variable where it is set, with the warnings for
/// what was wrong in it.
pub fn new<T>(d: T, rust_log: Option<&str>) -> (r: (EnvLogger<T>, Vec<SpecWarning>))
    ensures
        r.0.drain == d,
        match rust_log {
            Some(spec) => {
                &&& built_from(read_spec(spec@).directives, views(r.0.directives@))
                &&& filter_from(read_spec(spec@).pattern, FilterKind::Pattern, r.0.filter)
                &&& warnings_from(
                    read_spec(spec@).warnings,
                    read_spec(spec@).pattern is Some && r.0.filter is None,
                    warning_views(r.1@),
                )
            },
            None => {
                &&& views(r.0.directives@) == seq![fallback()]
                &&& r.0.filter is None
                &&& r.1@.len() == 0
            },
        },
{
    EnvLogger::new(d, rust_log)
}

} // verus!
