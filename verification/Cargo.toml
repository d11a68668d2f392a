[package]
name = "astra"
version = "0.1.0"
edition = "2021"
publish = false

[dependencies]
sha2 = "*"
serde = { version = "1", features = ["derive"] }
serde_json = "1"
chrono = "*"
dirs = "*"
toml = "*"
thiserror = "*"
sysinfo = "*"
starship-battery = "*"
crossterm = "*"
ratatui = "*"
