[package]
name = "git_absorb"
version = "0.1.0"
edition = "2021"
publish = false

[dependencies]
memchr = "*"
git2 = "*"
anyhow = "*"
clap = { version = "*", features = ["derive"] }
clap_complete = "*"
clap_complete_nushell = "*"
slog = "*"
slog-term = "*"
