[package]
name = "mpc_iris_code"
version = "0.1.0"
edition = "2021"
publish = false

[dependencies]
anyhow = "1"
bytemuck = { version = "1", features = ["derive"] }
clap = { version = "4", features = ["derive"] }
clap-num = "1"
futures = "0.3"
hex = "0.4"
indicatif = "0.17"
itertools = "0.11"
memmap = "0.7"
rand = "0.8"
rayon = "1"
serde = { version = "1", features = ["derive"] }
serde_json = "1"
target-features = "0.1"
tokio = { version = "1", features = ["full"] }
