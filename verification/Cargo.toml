[package]
name = "qwen_engine"
version = "0.1.0"
edition = "2021"
publish = false

[dependencies]
anyhow = "1"
bytemuck = "1"
candle-core = "*"
candle-nn = "*"
clap = { version = "4", features = ["derive"] }
half = "2"
memmap2 = "*"
rayon = "1"
safetensors = "*"
serde = { version = "1", features = ["derive"] }
serde_json = "1"
tracing = "0.1"
tracing-subscriber = { version = "0.3", features = ["env-filter"] }

[dev-dependencies]
tempfile = "3"
