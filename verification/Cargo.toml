[package]
name = "wadb"
version = "0.1.0"
edition = "2021"
publish = false

[dependencies]
anyhow = "1"
clap = { version = "4", features = ["derive"] }
crossterm = "0.29"
ksni = { version = "0.3", features = ["blocking"] }
mdns-sd = "0.13"
qrcode = { version = "0.14", default-features = false }
rand = "0.9"
ratatui = "0.30"
rpassword = "7"
zeroize = "1"
