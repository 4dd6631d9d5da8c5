[package]
name = "weaver"
version = "0.1.0"
edition = "2021"
publish = false

[dependencies]
sha2 = "=0.10.9"
serde_json = "=1.0.154"
chrono = { version = "=0.4.45", default-features = false, features = ["std", "clock"] }
glob = "=0.3.4"
dunce = "=1.0.5"
git2 = { version = "=0.19.0", default-features = false }
uuid = "1"
ignore = "0.4"
walkdir = "2"
