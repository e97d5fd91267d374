[package]
name = "termail"
version = "0.1.0"
edition = "2021"
publish = false

[dependencies]
maildir = "*"
mailparse = "*"
scraper = "*"
pinyin = "*"
serde = { version = "*", features = ["derive"] }
toml = "*"
dirs-next = "*"
shellexpand = "*"
anyhow = "*"
chrono = "*"
