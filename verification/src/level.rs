//! Severity levels of events, verbosity ceilings of directives, and how a
//! ceiling is read from text.

use vstd::prelude::*;

verus! {

/// Whether `c` is the capital letter `upper` or its small form.
pub open spec fn same_letter(c: char, upper: char) -> bool {
    c == upper || c as u32 == upper as u32 + 32
}

/// Whether `text` is a non-empty beginning of `name`, letter case aside.
/// `name` is written in capital letters.
pub open spec fn abbreviates(text: Seq<char>, name: Seq<char>) -> bool {
    &&& 0 < text.len() <= name.len()
    &&& forall|i: int| 0 <= i < text.len() ==> same_letter(text[i], #[trigger] name[i])
}

/// The full names of the ceilings, by rank.
pub open spec fn long_names() -> Seq<Seq<char>> {
    seq![
        seq!['O', 'F', 'F'],
        seq!['C', 'R', 'I', 'T', 'I', 'C', 'A', 'L'],
        seq!['E', 'R', 'R', 'O', 'R'],
        seq!['W', 'A', 'R', 'N', 'I', 'N', 'G'],
        seq!['I', 'N', 'F', 'O'],
        seq!['D', 'E', 'B', 'U', 'G'],
        seq!['T', 'R', 'A', 'C', 'E'],
    ]
}

/// The four-letter names of the ceilings, by rank.
pub open spec fn short_names() -> Seq<Seq<char>> {
    seq![
        seq!['O', 'F', 'F'],
        seq!['C', 'R', 'I', 'T'],
        seq!['E', 'R', 'R', 'O'],
        seq!['W', 'A', 'R', 'N'],
        seq!['I', 'N', 'F', 'O'],
        seq!['D', 'E', 'B', 'G'],
        seq!['T', 'R', 'C', 'E'],
    ]
}

/// Rank of the first of the seven `names` that `text` abbreviates.
pub open spec fn name_position(text: Seq<char>, names: Seq<Seq<char>>) -> Option<nat> {
    if abbreviates(text, names[0]) {
        Some(0)
    } else if abbreviates(text, names[1]) {
        Some(1)
    } else if abbreviates(text, names[2]) {
        Some(2)
    } else if abbreviates(text, names[3]) {
        Some(3)
    } else if abbreviates(text, names[4]) {
        Some(4)
    } else if abbreviates(text, names[5]) {
        Some(5)
    } else if abbreviates(text, names[6]) {
        Some(6)
    } else {
        None
    }
}

/// The ceiling that `text` names: the first full name that it abbreviates,
/// else the first four-letter name that it abbreviates.
pub open spec fn named_level(text: Seq<char>) -> Option<FilterLevel> {
    match name_position(text, long_names()) {
        Some(rank) => FilterLevel::of_rank(rank),
        None => match name_position(text, short_names()) {
            Some(rank) => FilterLevel::of_rank(rank),
            None => None,
        },
    }
}

/// Whether `c` is one of `0` to `9`.
pub open spec fn is_digit(c: char) -> bool {
    0x30 <= c as u32 <= 0x39
}

/// Whether `text` is one decimal digit or more, and nothing else.
pub open spec fn is_decimal(text: Seq<char>) -> bool {
    text.len() > 0 && forall|i: int| 0 <= i < text.len() ==> is_digit(#[trigger] text[i])
}

/// The number that the decimal digits `text` write.
pub open spec fn decimal_value(text: Seq<char>) -> nat
    decreases text.len(),
{
    if text.len() == 0 {
        0
    } else {
        decimal_value(text.drop_last()) * 10 + (text.last() as u32 - 0x30) as nat
    }
}

/// The ceiling whose rank `text` writes in decimal digits.
pub open spec fn ranked_level(text: Seq<char>) -> Option<FilterLevel> {
    if is_decimal(text) {
        FilterLevel::of_rank(decimal_value(text))
    } else {
        None
    }
}

/// The ceiling that `text` stands for, by name or by rank.
pub open spec fn level_of_text(text: Seq<char>) -> Option<FilterLevel> {
    match named_level(text) {
        Some(level) => Some(level),
        None => ranked_level(text),
    }
}

/// Severity of a single event. `Critical` is the most severe, `Trace` the
/// least.
#[derive(Clone, Copy, Debug, PartialEq, Eq, Structural, PartialOrd, Ord, Hash)]
pub enum Level {
    Critical,
    Error,
    Warning,
    Info,
    Debug,
    Trace,
}

/// Verbosity ceiling attached to a directive. `Off` lets nothing through,
/// `Trace` lets everything through.
#[derive(Clone, Copy, Debug, PartialEq, Eq, Structural, PartialOrd, Ord, Hash)]
pub enum FilterLevel {
    Off,
    Critical,
    Error,
    Warning,
    Info,
    Debug,
    Trace,
}

impl Level {
    /// Position of the level in the order of severities, from 1
    /// (`Critical`) to 6 (`Trace`).
    pub open spec fn rank(self) -> nat {
        match self {
            Level::Critical => 1,
            Level::Error => 2,
            Level::Warning => 3,
            Level::Info => 4,
            Level::Debug => 5,
            Level::Trace => 6,
        }
    }

    /// The rank as a machine integer.
    pub fn as_usize(&self) -> (r: usize)
        ensures
            r == self.rank(),
    {
        match *self {
            Level::Critical => 1,
            Level::Error => 2,
            Level::Warning => 3,
            Level::Info => 4,
            Level::Debug => 5,
            Level::Trace => 6,
        }
    }
}

impl FilterLevel {
    /// Position of the ceiling in the order of verbosities, from 0 (`Off`)
    /// to 6 (`Trace`).
    pub open spec fn rank(self) -> nat {
        match self {
            FilterLevel::Off => 0,
            FilterLevel::Critical => 1,
            FilterLevel::Error => 2,
            FilterLevel::Warning => 3,
            FilterLevel::Info => 4,
            FilterLevel::Debug => 5,
            FilterLevel::Trace => 6,
        }
    }

    /// The ceiling with the given rank; `None` above 6.
    pub open spec fn of_rank(u: nat) -> Option<FilterLevel> {
        if u == 0 {
            Some(FilterLevel::Off)
        } else if u == 1 {
            Some(FilterLevel::Critical)
        } else if u == 2 {
            Some(FilterLevel::Error)
        } else if u == 3 {
            Some(FilterLevel::Warning)
        } else if u == 4 {
            Some(FilterLevel::Info)
        } else if u == 5 {
            Some(FilterLevel::Debug)
        } else if u == 6 {
            Some(FilterLevel::Trace)
        } else {
            None
        }
    }

    /// Whether an event of severity `level` passes under this ceiling.
    pub open spec fn allows(self, level: Level) -> bool {
        level.rank() <= self.rank()
    }

    /// The rank as a machine integer.
    pub fn as_usize(&self) -> (r: usize)
        ensures
            r == self.rank(),
    {
        match *self {
            FilterLevel::Off => 0,
            FilterLevel::Critical => 1,
            FilterLevel::Error => 2,
            FilterLevel::Warning => 3,
            FilterLevel::Info => 4,
            FilterLevel::Debug => 5,
            FilterLevel::Trace => 6,
        }
    }

    /// The ceiling with the given rank, if there is one.
    pub fn from_usize(u: usize) -> (r: Option<FilterLevel>)
        ensures
            r == FilterLevel::of_rank(u as nat),
    {
        match u {
            0 => Some(FilterLevel::Off),
            1 => Some(FilterLevel::Critical),
            2 => Some(FilterLevel::Error),
            3 => Some(FilterLevel::Warning),
            4 => Some(FilterLevel::Info),
            5 => Some(FilterLevel::Debug),
            6 => Some(FilterLevel::Trace),
            _ => None,
        }
    }

    /// The most verbose ceiling.
    pub fn max() -> (r: FilterLevel)
        ensures
            r == FilterLevel::Trace,
    {
        FilterLevel::Trace
    }

    /// Decides whether an event of severity `level` passes under this
    /// ceiling.
    pub fn accepts(self, level: Level) -> (b: bool)
        ensures
            b == self.allows(level),
    {
        level.as_usize() <= self.as_usize()
    }
}

/// Reads a ceiling from its name with `slog`'s
/// `<FilterLevel as FromStr>::from_str`. That function goes through the full
/// names by rank and then through the four-letter names by rank, and takes
/// the first of which `name` is a non-empty beginning when ASCII letter case
/// is left aside; it fails where there is none.
#[verifier::external_body]
fn level_from_name(name: &str) -> (r: Option<FilterLevel>)
    ensures
        r == named_level(name@),
{
    match name.parse::<slog::FilterLevel>() {
        Ok(slog::FilterLevel::Off) => Some(FilterLevel::Off),
        Ok(slog::FilterLevel::Critical) => Some(FilterLevel::Critical),
        Ok(slog::FilterLevel::Error) => Some(FilterLevel::Error),
        Ok(slog::FilterLevel::Warning) => Some(FilterLevel::Warning),
        Ok(slog::FilterLevel::Info) => Some(FilterLevel::Info),
        Ok(slog::FilterLevel::Debug) => Some(FilterLevel::Debug),
        Ok(slog::FilterLevel::Trace) => Some(FilterLevel::Trace),
        Err(()) => None,
    }
}

/// Reads a ceiling from its rank in decimal digits.
pub fn level_from_rank(text: &str) -> (r: Option<FilterLevel>)
    ensures
        r == ranked_level(text@),
{
    let mut value: usize = 0;
    let mut digits: bool = true;
    let mut any: bool = false;
    for c in it: text.chars()
        invariant
            it.seq() == text@,
            any == (it.index() > 0),
            digits == (forall|i: int| 0 <= i < it.index() ==> is_digit(#[trigger] text@[i])),
            digits ==> value == if decimal_value(text@.take(it.index() as int)) < 7 {
                decimal_value(text@.take(it.index() as int))
            } else {
                7
            },
            value <= 7,
    {
        let ghost k = it.index() as int;
        let u: u32 = c as u32;
        any = true;
        proof {
            assert(text@.take(k + 1).drop_last() == text@.take(k));
        }
        if digits && 0x30 <= u && u <= 0x39 {
            let d: usize = (u - 0x30) as usize;
            value = if value >= 7 {
                7
            } else if value * 10 + d >= 7 {
                7
            } else {
                value * 10 + d
            };
        } else {
            digits = false;
        }
    }
    proof {
        assert(text@.take(text@.len() as int) == text@);
    }
    if any && digits {
        FilterLevel::from_usize(value)
    } else {
        None
    }
}

/// Reads a ceiling from text: a name, in full or abbreviated and in either
/// letter case, or a rank from 0 to 6 in decimal digits.
pub fn parse_level(text: &str) -> (r: Option<FilterLevel>)
    ensures
        r == level_of_text(text@),
{
    match level_from_name(text) {
        Some(level) => Some(level),
        None => level_from_rank(text),
    }
}

} // verus!
