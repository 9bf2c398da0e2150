[package]
name = "quantize"
version = "0.2.1"
edition = "2021"
publish = false

[dependencies]
half = "2"
rand = "0.8"
serde = { version = "1", features = ["derive"] }
serde_json = "1"
candle-core = "0.9"
candle-nn = "0.9"
candle-transformers = "0.9"
tokenizers = { version = "0.22", default-features = false, features = ["onig"] }
hf-hub = { version = "0.4", default-features = false, features = ["ureq"] }
ureq = "2"
pyo3 = "0.28"
numpy = "0.28"
