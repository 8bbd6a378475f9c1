[package]
name = "manage_dan"
version = "0.1.0"
edition = "2021"
publish = false

[dependencies]
chrono = "=0.4.45"
html2text = "=0.17.4"
uuid = { version = "=1.29.0", features = ["v4"] }
serde = { version = "=1.0.229", features = ["derive"] }
serde_json = "=1.0.154"
tokio = { version = "=1.54.1", features = ["rt-multi-thread", "macros", "process", "fs", "io-util", "time"] }
anyhow = "=1.0.104"
thiserror = "=1.0.69"
tracing = "=0.1.44"
tracing-subscriber = { version = "=0.3.23", features = ["json", "chrono", "env-filter"] }
tracing-appender = "=0.2.5"
once_cell = "=1.21.4"
config = "=0.14.1"
escpos = { version = "=0.20.1", features = ["native_usb", "ui"] }
rusqlite = "*"
tokio-rusqlite = "*"
reqwest = { version = "0.12", default-features = false, features = ["json", "default-tls"] }
dotenv = "0.15"
ratatui = "0.29"
crossterm = "0.28"
color-eyre = { version = "0.6", default-features = false }
itertools = "*"
warp = { version = "0.3", default-features = false }
