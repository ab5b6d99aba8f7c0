[package]
name = "ghfetch"
version = "0.1.0"
edition = "2021"
publish = false

[dependencies]
chrono = "0.4"
clap = { version = "4", features = ["derive"] }
dirs = "5"
image = { version = "0.25", default-features = false, features = ["png", "jpeg"] }
serde = { version = "1", features = ["derive"] }
serde_json = "1"
sysinfo = "0.30"
terminal_size = "0.3"
toml = "0.8"
ureq = { version = "2", features = ["json"] }
