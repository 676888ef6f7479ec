[package]
name = "tars_tui"
version = "0.1.0"
edition = "2021"
publish = false

[dependencies]
id_tree = "*"
chrono = "*"
ratatui = "*"
crossterm = "*"
tokio = { version = "*", features = ["rt-multi-thread", "macros", "sync", "time"] }
clap = { version = "*", features = ["derive"] }
color-eyre = "*"
serde = { version = "*", features = ["derive"] }
serde_json = "*"
strum = { version = "*", features = ["derive"] }
tracing = "*"
tui-textarea = "*"
tui-scrollview = "*"
async-trait = "*"
futures = "*"
async-recursion = "*"
