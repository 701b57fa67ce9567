[package]
name = "slog-envlogger"
version = "2.2.0"
edition = "2021"
publish = false

[dependencies]
slog = "2"
slog-term = "2"
slog-scope = "4"
slog-stdlog = "4"
log = "0.4"
regex = "1"
