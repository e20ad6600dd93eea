[package]
name = "terminal_rtl"
version = "0.1.0"
edition = "2021"
publish = false

[dependencies]
unicode-bidi = "0.3"
unicode-bidi-mirroring = "*"
base64 = "0.22.1"
anyhow = "1"
clap = { version = "4", features = ["derive"] }
crossterm = "0.29"
portable-pty = "0.9"
signal-hook = "0.3"
windows-sys = { version = "0.59", features = ["Win32_Foundation", "Win32_System_Console"] }
vt100 = "0.16"

[dev-dependencies]
vt100 = "0.16"
