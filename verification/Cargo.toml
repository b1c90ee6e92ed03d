[package]
name = "agentdrop"
version = "0.2.0"
edition = "2021"
publish = false

[dependencies]
anyhow = "1"
arboard = { version = "3", default-features = false, features = ["image-data"] }
clap = { version = "4", features = ["derive"] }
crossterm = "*"
image = { version = "0.25", default-features = false, features = ["png"] }
portable-pty = "*"
serde = { version = "1", features = ["derive"] }
serde_json = "1"
uuid = { version = "1", features = ["v4"] }
windows-sys = { version = "*", features = ["Win32_Foundation", "Win32_System_Console"] }
