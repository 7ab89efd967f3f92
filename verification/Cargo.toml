[package]
name = "nyaasi_scraper"
version = "0.1.0"
edition = "2021"
publish = false

[dependencies]
kuchiki = "0.8"
url = "2"
serde = "1"
serde_derive = "1"
serde_json = "1"
clap = "2"
lazy_static = "1"
reqwest = { version = "0.12", default-features = false, features = ["blocking"] }
