[package]
name = "lance_engines"
version = "0.1.0"
edition = "2021"
publish = false

[dependencies]
regex = "1"
serde_json = "1"
arrow-array = "60"
arrow-schema = "60"
futures = "0.3"
tokio = { version = "1", features = ["macros", "rt-multi-thread", "io-std", "io-util"] }
