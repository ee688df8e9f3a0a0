[package]
name = "proxydeck"
version = "0.1.0"
edition = "2021"
publish = false

[dependencies]
ril = { version = "=0.10.3", features = ["png"] }
scryfall = "=0.25.0"
reqwest = "=0.12.28"
reqwest-middleware = "=0.4.2"
http-cache-reqwest = "=0.16.0"
tokio = { version = "=1.53.2", features = ["macros", "rt-multi-thread"] }
