[package]
name = "imgren"
version = "0.1.0"
edition = "2021"
publish = false

[dependencies]
chrono = "0.4"
clap = { version = "4", features = ["derive"] }
rand = "0.8"
windows-sys = { version = "0.48", features = ["Win32_Foundation", "Win32_System_Console"] }
