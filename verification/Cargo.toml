[package]
name = "battery"
version = "0.1.0"
edition = "2021"
publish = false

[dependencies]
clap = { version = "4", features = ["derive"] }
core-foundation-sys = "0.8"
flate2 = "1"
io-kit-sys = "0.4"
libc = "0.2"
mach2 = "0.4"
ratatui = "0.29"
serde = { version = "1", features = ["derive"] }
serde_json = "1"
