use slog_envlogger::level::{level_from_rank, parse_level};
use slog_envlogger::{FilterLevel, Level};

const LEVELS: [Level; 6] =
    [Level::Critical, Level::Error, Level::Warning, Level::Info, Level::Debug, Level::Trace];

const CEILINGS: [FilterLevel; 7] = [
    FilterLevel::Off,
    FilterLevel::Critical,
    FilterLevel::Error,
    FilterLevel::Warning,
    FilterLevel::Info,
    FilterLevel::Debug,
    FilterLevel::Trace,
];

#[test]
fn ranks_of_levels() {
    for (i, level) in LEVELS.iter().enumerate() {
        assert_eq!(level.as_usize(), i + 1);
    }
}

#[test]
fn ranks_of_ceilings() {
    for (i, ceiling) in CEILINGS.iter().enumerate() {
        assert_eq!(ceiling.as_usize(), i);
        assert_eq!(FilterLevel::from_usize(i), Some(*ceiling));
    }
    assert_eq!(FilterLevel::from_usize(7), None);
    assert_eq!(FilterLevel::from_usize(usize::MAX), None);
    assert_eq!(FilterLevel::max(), FilterLevel::Trace);
}

#[test]
fn ceiling_accepts_levels_up_to_its_rank() {
    for ceiling in CEILINGS {
        for level in LEVELS {
            assert_eq!(ceiling.accepts(level), level.as_usize() <= ceiling.as_usize());
        }
    }
    assert!(FilterLevel::Info.accepts(Level::Info));
    assert!(FilterLevel::Info.accepts(Level::Error));
    assert!(!FilterLevel::Info.accepts(Level::Debug));
    assert!(!FilterLevel::Off.accepts(Level::Critical));
}

#[test]
fn level_by_name() {
    assert_eq!(parse_level("off"), Some(FilterLevel::Off));
    assert_eq!(parse_level("critical"), Some(FilterLevel::Critical));
    assert_eq!(parse_level("error"), Some(FilterLevel::Error));
    assert_eq!(parse_level("warn"), Some(FilterLevel::Warning));
    assert_eq!(parse_level("warning"), Some(FilterLevel::Warning));
    assert_eq!(parse_level("info"), Some(FilterLevel::Info));
    assert_eq!(parse_level("debug"), Some(FilterLevel::Debug));
    assert_eq!(parse_level("trace"), Some(FilterLevel::Trace));
}

#[test]
fn level_by_name_in_either_case() {
    assert_eq!(parse_level("OFF"), Some(FilterLevel::Off));
    assert_eq!(parse_level("Error"), Some(FilterLevel::Error));
    assert_eq!(parse_level("wArN"), Some(FilterLevel::Warning));
    assert_eq!(parse_level("iNfO"), Some(FilterLevel::Info));
    assert_eq!(parse_level("DEBUG"), Some(FilterLevel::Debug));
    assert_eq!(parse_level("tRACE"), Some(FilterLevel::Trace));
}

#[test]
fn level_by_abbreviated_name() {
    assert_eq!(parse_level("crit"), Some(FilterLevel::Critical));
    assert_eq!(parse_level("erro"), Some(FilterLevel::Error));
    assert_eq!(parse_level("debg"), Some(FilterLevel::Debug));
    assert_eq!(parse_level("trce"), Some(FilterLevel::Trace));
    assert_eq!(parse_level("w"), Some(FilterLevel::Warning));
    assert_eq!(parse_level("e"), Some(FilterLevel::Error));
    assert_eq!(parse_level("De"), Some(FilterLevel::Debug));
    assert_eq!(parse_level("tr"), Some(FilterLevel::Trace));
}

#[test]
fn level_by_rank() {
    assert_eq!(parse_level("0"), Some(FilterLevel::Off));
    assert_eq!(parse_level("1"), Some(FilterLevel::Critical));
    assert_eq!(parse_level("2"), Some(FilterLevel::Error));
    assert_eq!(parse_level("3"), Some(FilterLevel::Warning));
    assert_eq!(parse_level("4"), Some(FilterLevel::Info));
    assert_eq!(parse_level("5"), Some(FilterLevel::Debug));
    assert_eq!(parse_level("6"), Some(FilterLevel::Trace));
    assert_eq!(parse_level("006"), Some(FilterLevel::Trace));
    assert_eq!(level_from_rank("4"), Some(FilterLevel::Info));
}

#[test]
fn no_level() {
    for text in [
        "", " ", "noNumber", "wrong", "warnings", "infos", "debgx", "crate1", "i nfo", " info",
        "info ", "7", "10", "60", "99999999999999999999999999", "-1", "+1", "1.0", "0x1", "\u{661}",
        "\u{e9}", "inf\u{f6}",
    ] {
        assert_eq!(parse_level(text), None, "{:?}", text);
    }
    assert_eq!(level_from_rank("info"), None);
    assert_eq!(level_from_rank(""), None);
    assert_eq!(level_from_rank("1a"), None);
    assert_eq!(level_from_rank("a1"), None);
}

const FULL_NAMES: [&str; 7] = ["OFF", "CRITICAL", "ERROR", "WARNING", "INFO", "DEBUG", "TRACE"];

const SHORT_NAMES: [&str; 7] = ["OFF", "CRIT", "ERRO", "WARN", "INFO", "DEBG", "TRCE"];

fn abbreviates(text: &[char], name: &str) -> bool {
    let name: Vec<char> = name.chars().collect();
    !text.is_empty()
        && text.len() <= name.len()
        && text
            .iter()
            .zip(name.iter())
            .all(|(c, upper)| c == upper || *c as u32 == *upper as u32 + 32)
}

fn expected_level(text: &str) -> Option<FilterLevel> {
    let chars: Vec<char> = text.chars().collect();
    if let Some(rank) = FULL_NAMES.iter().position(|name| abbreviates(&chars, name)) {
        return Some(CEILINGS[rank]);
    }
    if let Some(rank) = SHORT_NAMES.iter().position(|name| abbreviates(&chars, name)) {
        return Some(CEILINGS[rank]);
    }
    if !chars.is_empty() && chars.iter().all(|c| ('0'..='9').contains(c)) {
        let mut value: u128 = 0;
        for c in &chars {
            value = (value * 10 + (*c as u128 - '0' as u128)).min(1000);
        }
        if value <= 6 {
            return Some(CEILINGS[value as usize]);
        }
    }
    None
}

#[test]
fn level_of_every_short_text() {
    let alphabet: Vec<char> =
        "oOfFcCrRiItTaAlLeEwWnNgGdDbBuU0167 =x-\u{e9}\u{130}\u{212a}".chars().collect();
    let mut texts: Vec<String> = vec![String::new()];
    let mut last: Vec<String> = vec![String::new()];
    for _ in 0..3 {
        let mut next = Vec::new();
        for text in &last {
            for c in &alphabet {
                let mut longer = text.clone();
                longer.push(*c);
                next.push(longer);
            }
        }
        texts.extend(next.iter().cloned());
        last = next;
    }
    assert_eq!(texts.len(), 1 + 41 + 41 * 41 + 41 * 41 * 41);
    for text in &texts {
        assert_eq!(parse_level(text), expected_level(text), "{:?}", text);
    }
}

#[test]
fn level_of_every_beginning_of_a_name() {
    for names in [FULL_NAMES, SHORT_NAMES] {
        for (rank, name) in names.iter().enumerate() {
            for end in 1..=name.len() {
                let upper = &name[..end];
                let lower = upper.to_lowercase();
                let mut mixed = String::new();
                for (i, c) in upper.chars().enumerate() {
                    mixed.push(if i % 2 == 0 { c.to_ascii_lowercase() } else { c });
                }
                for text in [upper, lower.as_str(), mixed.as_str()] {
                    assert_eq!(parse_level(text), expected_level(text), "{:?}", text);
                    assert_eq!(parse_level(text), Some(CEILINGS[rank]), "{:?}", text);
                }
            }
            for extra in ["s", " ", "0", "\u{e9}"] {
                let longer = format!("{}{}", name, extra);
                assert_eq!(parse_level(&longer), expected_level(&longer), "{:?}", longer);
            }
        }
    }
}
