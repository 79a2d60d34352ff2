[package]
name = "cdc_badge"
version = "0.1.0"
edition = "2021"
publish = false

[dependencies]
heapless = "0.9"
embassy-time = { version = "0.5", features = ["std"] }
ratatui = { version = "0.30", default-features = false }
trouble-host = "0.8"
bt-hci = "*"
embassy-sync = "*"
embassy-futures = "0.1"
embedded-graphics = "0.8"
embedded-hal = "1"
embedded-hal-async = "1"
mousefood = "*"
once_cell = "1"
ariel-os = "*"
