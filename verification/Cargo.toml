[package]
name = "udo"
version = "0.1.0"
edition = "2021"
publish = false

[dependencies]
simd-json = "=0.18.1"
regex = "=1.13.1"
sha2 = "=0.11.1"
num_cpus = "=1.17.0"
arrow = "=60.0.0"
parquet = { version = "=60.0.0", default-features = false, features = ["arrow"] }
tokio = { version = "=1.54.1", features = ["rt-multi-thread", "macros", "fs", "io-util"] }
futures = "=0.3.34"
async-trait = "=0.1.92"
tracing = "=0.1.44"
tracing-subscriber = "=0.3.23"
clap = { version = "=4.6.7", features = ["derive"] }
serde = { version = "=1.0.229", features = ["derive"] }
serde_yaml = "=0.9.34"
anyhow = "=1.0.104"
thiserror = "=2.0.21"
serde_json = "=1.0.154"
apache-avro = "*"
