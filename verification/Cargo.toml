[package]
name = "crawl_core"
version = "0.1.0"
edition = "2021"
publish = false

[dependencies]
anyhow = "*"
curl = { version = "*", default-features = false }
log = "*"
scraper = "*"
threadpool = "*"
