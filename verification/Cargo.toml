[package]
name = "tttt"
version = "0.1.0"
edition = "2021"
publish = false

[dependencies]
regex = "1"
serde_json = "1"
serde = { version = "1", features = ["derive"] }
chrono = "0.4"
chrono-tz = "*"
clap = { version = "4", features = ["derive"] }
thiserror = "*"
ratatui = "*"
rusqlite = { version = "*", features = ["bundled"] }
nix = { version = "*", features = ["poll", "fs", "term", "signal", "process", "socket"] }
libc = "0.2"
portable-pty = "*"
