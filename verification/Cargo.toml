[package]
name = "tilemap"
version = "0.1.0"
edition = "2021"
publish = false

[dependencies]
lru = "=0.19.0"
noise = { version = "0.6.0", default-features = false }
quicksilver = { version = "0.3.22", default-features = false }
recs = "=2.0.1"
