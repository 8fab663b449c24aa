[package]
name = "rho_tui"
version = "0.1.0"
edition = "2021"
publish = false

[dependencies]
unicode-width = "=0.2.3"
regex = "=1.13.1"
ignore = "=0.4.34"
crossterm = "=0.28.1"
uuid = { version = "=1.29.0", features = ["v4"] }
serde = { version = "1", features = ["derive"] }
serde_json = "1"
