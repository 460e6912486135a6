[package]
name = "text_search"
version = "0.1.0"
edition = "2021"
publish = false

[dependencies]
grep = "0.3"
grep-searcher = "0.1"
ignore = "0.4"
napi = "2"
napi-derive = "2"
serde = { version = "1", features = ["derive"] }
