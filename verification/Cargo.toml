[package]
name = "auditguard"
version = "0.1.0"
edition = "2021"
publish = false

[dependencies]
anyhow = "*"
chrono = "*"
clap = { version = "4", features = ["derive"] }
colored = "*"
crossterm = "0.28"
libc = "*"
nix = { version = "0.29", features = ["user"] }
notify = "*"
ratatui = "0.29"
serde = { version = "1", features = ["derive"] }
serde_json = "*"
sysinfo = "0.33"
tokio = { version = "1", features = ["full"] }
