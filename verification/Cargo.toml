[package]
name = "cft_bench"
version = "0.1.0"
edition = "2021"
publish = false

[dependencies]
anyhow = "=1.0.104"
ark-bn254 = "=0.6.0"
ark-ec = "=0.6.0"
ark-ed-on-bn254 = "=0.6.0"
ark-ff = "=0.6.0"
clap = { version = "=4.6.7", features = ["derive", "env"] }
light-poseidon = "=0.5.0"
rand = "=0.8.8"
regex = "=1.13.1"
serde = { version = "1", features = ["derive"] }
serde_json = "1"
sha2 = "=0.10.9"
