[package]
name = "msm_wgpu"
version = "0.1.0"
edition = "2021"
publish = false

[dependencies]
ark-ec = "=0.4.2"
ark-ff = "=0.4.2"
ark-ed-on-bls12-377 = "=0.4.0"
num-bigint = { version = "=0.4.8", features = ["rand"] }
wgpu = "=0.19.4"
tokio = { version = "=1.54.1", features = ["rt-multi-thread", "macros", "fs", "io-util"] }
bytemuck = { version = "=1.25.2", features = ["derive"] }
flume = "=0.11.1"
futures = "=0.3.34"
log = "=0.4.34"
env_logger = "=0.11.11"
anyhow = "=1.0.104"
serde = { version = "=1.0.229", features = ["derive"] }
serde_json = "=1.0.154"
itertools = "=0.12.1"
rayon = "=1.12.0"
rand = "=0.8.8"
rand_chacha = "=0.3.1"
