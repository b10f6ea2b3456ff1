[package]
name = "sonic_pipe"
version = "0.1.0"
edition = "2021"
publish = false

[dependencies]
crc32fast = "*"
lz4_flex = "*"
reed-solomon-erasure = "*"
clap = { version = "*", features = ["derive"] }
cpal = "*"
rustfft = "*"
