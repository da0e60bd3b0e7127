[package]
name = "munje"
version = "0.1.0"
edition = "2021"
publish = false

[dependencies]
chrono = "0.4"
chrono-humanize = "*"
comrak = { version = "*", default-features = false }
harsh = "*"
rand = "0.8"
rust-argon2 = "*"
scraper = "*"
url = "*"
