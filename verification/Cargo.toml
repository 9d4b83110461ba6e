[package]
name = "wotw_seedgen_stats"
version = "0.1.0"
edition = "2021"
publish = false

[dependencies]
itertools = "0.10"
rustc-hash = "1.1"
structopt = "0.3"
serde = { version = "1", features = ["derive"] }
serde_json = "1"
atty = "0.2"
log = "0.4"
open = "3"
rand = "0.8"
bugsalot = "*"
