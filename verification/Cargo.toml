[package]
name = "line_editor"
version = "0.1.0"
edition = "2021"
publish = false

[dependencies]
anyhow = "1"
async-trait = "0.1"
bitflags = "1"
clap = "2"
crossterm = { version = "*", features = ["event-stream"] }
futures = "0.3"
pkg = "*"
termios = "0.3"
thiserror = "1"
tokio = { version = "1", features = ["full"] }
unicode-width = "0.1"
