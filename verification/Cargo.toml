[package]
name = "queryer"
version = "0.1.0"
edition = "2021"
publish = false

[dependencies]
anyhow = "=1.0.104"
polars = { version = "=0.55.2", default-features = false, features = ["dtype-i128", "json"] }
sqlparser = "=0.63.0"
tracing = "=0.1.44"
