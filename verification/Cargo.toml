[package]
name = "ohlcv_store"
version = "0.1.0"
edition = "2021"
publish = false

[dependencies]
anyhow = "1"
bincode = "1"
chrono = "0.4"
clap = "4"
csv = "1"
flatbuffers = "*"
memmap2 = "0.9"
num_cpus = "1"
rayon = "1"
serde = { version = "1", features = ["derive"] }
