[package]
name = "gresql"
version = "0.1.0"
edition = "2021"
publish = false

[dependencies]
clap = { version = "4", features = ["derive"] }
exitcode = "1"
glob = "0.3"
grep-regex = "0.1"
grep-searcher = "0.1"
regex = "1"
