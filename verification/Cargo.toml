[package]
name = "csv_analyzer"
version = "0.1.0"
edition = "2021"
publish = false

[dependencies]
anyhow = "1"
calamine = "*"
csv = "1"
encoding_rs = "0.8"
num_cpus = "1"
serde = { version = "1", features = ["derive"] }
tracing = "0.1"
tracing-subscriber = "0.3"

[dev-dependencies]
zip = { version = "*", default-features = false, features = ["deflate"] }
