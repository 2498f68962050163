[package]
name = "scrape-rs"
version = "0.1.0"
edition = "2021"
publish = false

[dependencies]
scraper = "*"
thiserror = "2"
ureq = "3"
