//! Per-module verbosity filtering for structured log events.
//!
//! A logger is configured by one string, by convention the value of the
//! `RUST_LOG` environment variable. The string is a list of directives,
//! separated by commas, each of the form
//!
//! ```text
//! path::to::module=level
//! ```
//!
//! A directive covers the named module and every module whose path begins
//! with that name. The level is a name (`off`, `critical`, `error`,
//! `warning`, `info`, `debug`, `trace`, in either letter case, in full or
//! cut short as in `warn`) or a rank from 0 to 6. Without `=level` the
//! module is logged at every level; a level without a module holds for all
//! modules, so that an item such as `info` or `e` is read as a level and not
//! as a module. Of several directives that cover a module the one with the
//! longest name decides. A logger without directives lets errors through and
//! nothing else.
//!
//! * `hello` turns on all logging for the module `hello`
//! * `info` turns on logging up to `info` everywhere
//! * `hello=debug` turns on logging up to `debug` for `hello`
//! * `hello,std::option` turns on all logging for `hello` and `std::option`
//! * `error,hello=warn` lets errors through everywhere and warnings in `hello`
//!
//! Behind a `/` the string may hold the pattern of a content filter: an
//! event then passes only if its rendered message matches the pattern, read
//! as a regular expression or as plain text.
//!
//! * `hello/foo` logs from `hello` what holds `foo`
//! * `info/f.o` logs up to `info` what holds `foo`, `f1o`, `fao`, ...
//! * `error,hello=warn/[0-9] scopes` asks for a digit followed by ` scopes`
//!
//! What is wrong in the string is left out and reported as a warning; a
//! string with more than one `/` is ignored as a whole.
//!
//! The library decides; it neither renders messages nor writes them. Its
//! caller calls [`EnvLogger::check`] with the level and module of an event,
//! renders the message where the content filter has to see it, and shows
//! it to [`EnvLogger::inspect`].

pub mod directive;
pub mod encoding;
pub mod filter;
pub mod laws;
pub mod level;
pub mod logger;
pub mod parser;
pub mod text;

pub use directive::LogDirective;
pub use filter::{Filter, FilterKind};
pub use level::{FilterLevel, Level};
pub use logger::{new, EnvLogger, LogBuilder, Verdict};
pub use parser::{parse_logging_spec, parse_spec, ParsedSpec, SpecWarning};
