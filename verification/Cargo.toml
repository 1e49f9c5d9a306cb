[package]
name = "rexedit"
version = "0.1.0"
edition = "2021"
publish = false

[dependencies]
color-eyre = "=0.6.5"
crossterm = { version = "=0.29.0", features = ["osc52"] }
libc = "=0.2.191"
ratatui = "=0.30.2"
regex = "=1.13.1"
serde = { version = "=1.0.229", features = ["derive"] }
serde_json = "=1.0.154"
windows-sys = { version = "=0.61.2", features = ["Win32_System_Console", "Win32_System_Threading"] }
