use slog_envlogger::parser::{parse_directive, parse_directives, scan_spec, Scanned};
use slog_envlogger::{
    parse_logging_spec, parse_spec, FilterKind, FilterLevel, LogDirective, SpecWarning,
};

fn rule(name: Option<&str>, level: FilterLevel) -> LogDirective {
    LogDirective { name: name.map(|s| s.to_string()), level }
}

#[test]
fn parse_logging_spec_valid() {
    let (dirs, filter) = parse_logging_spec("crate1::mod1=error,crate1::mod2,crate2=debug");
    assert_eq!(dirs.len(), 3);
    assert_eq!(dirs[0].name, Some("crate1::mod1".to_string()));
    assert_eq!(dirs[0].level, FilterLevel::Error);

    assert_eq!(dirs[1].name, Some("crate1::mod2".to_string()));
    assert_eq!(dirs[1].level, FilterLevel::max());

    assert_eq!(dirs[2].name, Some("crate2".to_string()));
    assert_eq!(dirs[2].level, FilterLevel::Debug);
    assert!(filter.is_none());
}

#[test]
fn parse_logging_spec_invalid_crate() {
    let (dirs, filter) = parse_logging_spec("crate1::mod1=warn=info,crate2=debug");
    assert_eq!(dirs.len(), 1);
    assert_eq!(dirs[0].name, Some("crate2".to_string()));
    assert_eq!(dirs[0].level, FilterLevel::Debug);
    assert!(filter.is_none());
}

#[test]
fn parse_logging_spec_invalid_log_level() {
    let (dirs, filter) = parse_logging_spec("crate1::mod1=noNumber,crate2=debug");
    assert_eq!(dirs.len(), 1);
    assert_eq!(dirs[0].name, Some("crate2".to_string()));
    assert_eq!(dirs[0].level, FilterLevel::Debug);
    assert!(filter.is_none());
}

#[test]
fn parse_logging_spec_string_log_level() {
    let (dirs, filter) = parse_logging_spec("crate1::mod1=wrong,crate2=warn");
    assert_eq!(dirs.len(), 1);
    assert_eq!(dirs[0].name, Some("crate2".to_string()));
    assert_eq!(dirs[0].level, FilterLevel::Warning);
    assert!(filter.is_none());
}

#[test]
fn parse_logging_spec_empty_log_level() {
    let (dirs, filter) = parse_logging_spec("crate1::mod1=wrong,crate2=");
    assert_eq!(dirs.len(), 1);
    assert_eq!(dirs[0].name, Some("crate2".to_string()));
    assert_eq!(dirs[0].level, FilterLevel::max());
    assert!(filter.is_none());
}

#[test]
fn parse_logging_spec_global() {
    let (dirs, filter) = parse_logging_spec("warn,crate2=debug");
    assert_eq!(dirs.len(), 2);
    assert_eq!(dirs[0].name, None);
    assert_eq!(dirs[0].level, FilterLevel::Warning);
    assert_eq!(dirs[1].name, Some("crate2".to_string()));
    assert_eq!(dirs[1].level, FilterLevel::Debug);
    assert!(filter.is_none());
}

#[test]
fn parse_logging_spec_valid_filter() {
    let (dirs, filter) = parse_logging_spec("crate1::mod1=error,crate1::mod2,crate2=debug/abc");
    assert_eq!(dirs.len(), 3);
    assert_eq!(dirs[0].name, Some("crate1::mod1".to_string()));
    assert_eq!(dirs[0].level, FilterLevel::Error);

    assert_eq!(dirs[1].name, Some("crate1::mod2".to_string()));
    assert_eq!(dirs[1].level, FilterLevel::max());

    assert_eq!(dirs[2].name, Some("crate2".to_string()));
    assert_eq!(dirs[2].level, FilterLevel::Debug);
    assert!(filter.is_some() && filter.unwrap().to_string() == "abc");
}

#[test]
fn parse_logging_spec_invalid_crate_filter() {
    let (dirs, filter) = parse_logging_spec("crate1::mod1=error=warn,crate2=debug/a.c");
    assert_eq!(dirs.len(), 1);
    assert_eq!(dirs[0].name, Some("crate2".to_string()));
    assert_eq!(dirs[0].level, FilterLevel::Debug);
    assert!(filter.is_some() && filter.unwrap().to_string() == "a.c");
}

#[test]
fn parse_logging_spec_empty_with_filter() {
    let (dirs, filter) = parse_logging_spec("crate1/a*c");
    assert_eq!(dirs.len(), 1);
    assert_eq!(dirs[0].name, Some("crate1".to_string()));
    assert_eq!(dirs[0].level, FilterLevel::max());
    assert!(filter.is_some() && filter.unwrap().to_string() == "a*c");
}

#[test]
fn parse_logging_spec_empty_level_alone() {
    let (dirs, filter) = parse_logging_spec("crate2=");
    assert_eq!(dirs, vec![rule(Some("crate2"), FilterLevel::Trace)]);
    assert!(filter.is_none());
}

#[test]
fn parse_logging_spec_too_many_slashes() {
    let (dirs, filter) = parse_logging_spec("a/b/c");
    assert!(dirs.is_empty());
    assert!(filter.is_none());

    let parsed = parse_spec("crate1=info,crate2/b/", FilterKind::Pattern);
    assert!(parsed.directives.is_empty());
    assert!(parsed.filter.is_none());
    assert_eq!(
        parsed.warnings,
        vec![SpecWarning::TooManySlashes("crate1=info,crate2/b/".to_string())]
    );
}

#[test]
fn parse_logging_spec_twice_is_the_same() {
    let spec = "info,crate1::mod1=warn,bad=level,crate2=/ab+";
    let (first, first_filter) = parse_logging_spec(spec);
    let (second, second_filter) = parse_logging_spec(spec);
    assert_eq!(first, second);
    assert_eq!(first.len(), 3);
    assert_eq!(first_filter.unwrap().to_string(), second_filter.unwrap().to_string());
}

#[test]
fn parse_logging_spec_empty() {
    let (dirs, filter) = parse_logging_spec("");
    assert!(dirs.is_empty());
    assert!(filter.is_none());
    let (dirs, filter) = parse_logging_spec(",,");
    assert!(dirs.is_empty());
    assert!(filter.is_none());
}

#[test]
fn parse_logging_spec_empty_pattern() {
    let (dirs, filter) = parse_logging_spec("crate1/");
    assert_eq!(dirs, vec![rule(Some("crate1"), FilterLevel::Trace)]);
    let filter = filter.unwrap();
    assert_eq!(filter.to_string(), "");
    assert!(filter.is_match("anything"));
    let (dirs, filter) = parse_logging_spec("/abc");
    assert!(dirs.is_empty());
    assert_eq!(filter.unwrap().to_string(), "abc");
}

#[test]
fn directive_without_equals() {
    assert_eq!(parse_directive(""), Scanned::Blank);
    assert_eq!(parse_directive("info"), Scanned::Rule(rule(None, FilterLevel::Info)));
    assert_eq!(parse_directive("INFO"), Scanned::Rule(rule(None, FilterLevel::Info)));
    assert_eq!(parse_directive("5"), Scanned::Rule(rule(None, FilterLevel::Debug)));
    assert_eq!(parse_directive("hello"), Scanned::Rule(rule(Some("hello"), FilterLevel::Trace)));
    assert_eq!(parse_directive(" info"), Scanned::Rule(rule(Some(" info"), FilterLevel::Trace)));
    assert_eq!(
        parse_directive("std::option"),
        Scanned::Rule(rule(Some("std::option"), FilterLevel::Trace))
    );
}

#[test]
fn directive_with_level() {
    assert_eq!(
        parse_directive("hello=debug"),
        Scanned::Rule(rule(Some("hello"), FilterLevel::Debug))
    );
    assert_eq!(
        parse_directive("hello= \tWARN \u{2003}"),
        Scanned::Rule(rule(Some("hello"), FilterLevel::Warning))
    );
    assert_eq!(parse_directive("hello=0"), Scanned::Rule(rule(Some("hello"), FilterLevel::Off)));
    assert_eq!(parse_directive("hello=2"), Scanned::Rule(rule(Some("hello"), FilterLevel::Error)));
    assert_eq!(
        parse_directive("hello=   "),
        Scanned::Rule(rule(Some("hello"), FilterLevel::Trace))
    );
    assert_eq!(parse_directive("=error"), Scanned::Rule(rule(Some(""), FilterLevel::Error)));
    assert_eq!(parse_directive(" a =error"), Scanned::Rule(rule(Some(" a "), FilterLevel::Error)));
    assert_eq!(parse_directive("="), Scanned::Rule(rule(Some(""), FilterLevel::Trace)));
}

#[test]
fn directive_left_out() {
    assert_eq!(
        parse_directive("hello=loud"),
        Scanned::Rejected(SpecWarning::InvalidLevel("loud".to_string()))
    );
    assert_eq!(
        parse_directive("hello= 7 "),
        Scanned::Rejected(SpecWarning::InvalidLevel("7".to_string()))
    );
    assert_eq!(
        parse_directive("hello=in fo"),
        Scanned::Rejected(SpecWarning::InvalidLevel("in fo".to_string()))
    );
    assert_eq!(
        parse_directive("a=info=b"),
        Scanned::Rejected(SpecWarning::InvalidDirective("a=info=b".to_string()))
    );
    assert_eq!(
        parse_directive("a=="),
        Scanned::Rejected(SpecWarning::InvalidDirective("a==".to_string()))
    );
}

#[test]
fn directives_in_the_order_written() {
    let scan = parse_directives("b=warn,,a,x=y=z,error,c=,d=what,");
    assert_eq!(
        scan.directives,
        vec![
            rule(Some("b"), FilterLevel::Warning),
            rule(Some("a"), FilterLevel::Trace),
            rule(None, FilterLevel::Error),
            rule(Some("c"), FilterLevel::Trace),
        ]
    );
    assert_eq!(
        scan.warnings,
        vec![
            SpecWarning::InvalidDirective("x=y=z".to_string()),
            SpecWarning::InvalidLevel("what".to_string()),
        ]
    );
}

#[test]
fn directives_with_characters_of_several_bytes() {
    let scan = parse_directives("caf\u{e9}::m\u{f8}d=info,\u{65e5}\u{672c}");
    assert_eq!(
        scan.directives,
        vec![
            rule(Some("caf\u{e9}::m\u{f8}d"), FilterLevel::Info),
            rule(Some("\u{65e5}\u{672c}"), FilterLevel::Trace),
        ]
    );
    assert!(scan.warnings.is_empty());
}

#[test]
fn scan_hands_back_the_pattern_as_written() {
    let scan = scan_spec("hello=debug/foo*foo");
    assert_eq!(scan.directives, vec![rule(Some("hello"), FilterLevel::Debug)]);
    assert_eq!(scan.pattern, Some("foo*foo".to_string()));
    assert!(scan.warnings.is_empty());

    let scan = scan_spec("hello");
    assert_eq!(scan.pattern, None);

    let scan = scan_spec("error,hello=warn/[0-9] scopes");
    assert_eq!(scan.directives.len(), 2);
    assert_eq!(scan.pattern, Some("[0-9] scopes".to_string()));

    let scan = scan_spec("a/b/c");
    assert!(scan.directives.is_empty());
    assert_eq!(scan.pattern, None);
    assert_eq!(scan.warnings, vec![SpecWarning::TooManySlashes("a/b/c".to_string())]);
}

#[test]
fn pattern_that_does_not_compile_leaves_no_filter() {
    let parsed = parse_spec("crate1=info,bad=x/a(b", FilterKind::Pattern);
    assert_eq!(parsed.directives, vec![rule(Some("crate1"), FilterLevel::Info)]);
    assert!(parsed.filter.is_none());
    assert_eq!(parsed.warnings.len(), 2);
    assert_eq!(parsed.warnings[0], SpecWarning::InvalidLevel("x".to_string()));
    assert!(matches!(parsed.warnings[1], SpecWarning::InvalidFilter(_)));

    let (dirs, filter) = parse_logging_spec("crate1=info/a(b");
    assert_eq!(dirs.len(), 1);
    assert!(filter.is_none());
}

#[test]
fn plain_pattern_always_gives_a_filter() {
    let parsed = parse_spec("crate1=info/a(b", FilterKind::Plain);
    assert!(parsed.warnings.is_empty());
    let filter = parsed.filter.unwrap();
    assert_eq!(filter.to_string(), "a(b");
    assert_eq!(filter.strategy(), FilterKind::Plain);
}

#[test]
fn warning_lines() {
    assert_eq!(
        SpecWarning::TooManySlashes("a/b/c".to_string()).message(),
        "warning: invalid logging spec 'a/b/c', ignoring it (too many '/'s)"
    );
    assert_eq!(
        SpecWarning::InvalidDirective("a=b=c".to_string()).message(),
        "warning: invalid logging spec 'a=b=c', ignoring it"
    );
    assert_eq!(
        SpecWarning::InvalidLevel("loud".to_string()).message(),
        "warning: invalid logging spec 'loud', ignoring it"
    );
    assert_eq!(
        SpecWarning::InvalidFilter("oops".to_string()).message(),
        "warning: invalid regex filter - oops"
    );
}
