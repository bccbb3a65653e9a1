[package]
name = "svalbard"
version = "0.1.0"
edition = "2021"
publish = false

[dependencies]
rust-argon2 = "1"
deunicode = "1"
rand = "0.8"
sublime_fuzzy = "0.7"
textwrap = "0.15"
serde = { version = "1", features = ["derive"] }
serde_json = "1"
serde_with = { version = "2", features = ["base64"] }
thiserror = "1"
anyhow = "1"
crossterm = "0.23"
tui = "0.18"
indoc = "1"
