[package]
name = "autosplit_timer"
version = "0.1.0"
edition = "2021"
publish = false

[dependencies]
livesplit-core = { version = "0.13", default-features = false, features = ["std"] }
serde = { version = "1", features = ["derive"] }
serde_json = "1"
clap = { version = "4", default-features = false, features = ["derive", "std", "help", "usage", "error-context"] }
crossterm = "0.28"
dirs-next = "2"
