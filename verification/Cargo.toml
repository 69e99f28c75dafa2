[package]
name = "fpy"
version = "0.1.0"
edition = "2021"
publish = false

[dependencies]
anyhow = "*"
bytes = "*"
chrono = "*"
clap = { version = "*", features = ["derive"] }
crossterm = { version = "*", features = ["event-stream"] }
edtui = "*"
futures = "*"
hmac = "*"
libc = "*"
nucleo = "*"
ratatui = "*"
serde = { version = "*", features = ["derive"] }
serde_json = "*"
sha2 = "*"
tempfile = "*"
throbber-widgets-tui = "*"
tokio = { version = "*", features = ["full"] }
unicode-width = "*"
uuid = { version = "*", features = ["v4", "v7", "serde"] }
zeromq = "*"
