[package]
name = "branchless"
version = "0.1.0"
edition = "2021"
publish = false

[dependencies]
bstr = "1.0"
chrono = "0.4"
clap = { version = "3.2", features = ["derive"] }
clap_mangen = "0.1"
cursive = { version = "0.20", default-features = false }
eyre = "0.6"
git2 = { version = "0.15", default-features = false }
itertools = "0.10"
rusqlite = { version = "0.28", features = ["bundled"] }
textwrap = "0.16"
thiserror = "1.0"
tracing = "0.1"
