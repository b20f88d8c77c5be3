[package]
name = "quantum_tictactoe"
version = "0.1.0"
edition = "2021"
publish = false

[dependencies]
array2d = { version = "=0.3.2", features = ["serde"] }
petgraph = "=0.6.5"
serde = { version = "=1.0.229", features = ["derive"] }
serde_json = "=1.0.154"
bincode = "=1.3.3"
tokio = { version = "=1.54.1", features = ["full"] }
uuid = { version = "=1.29.0", features = ["v4", "serde"] }
clap = { version = "=4.6.7", features = ["derive"] }
env_logger = "=0.11.11"
log = "=0.4.34"
error-stack = "=0.5.0"
async-trait = "=0.1.92"
futures = "=0.3.34"
lapin = { version = "=2.5.5", default-features = false }
redis = { version = "=0.27.6", default-features = false, features = ["tokio-comp", "uuid"] }
rand = "=0.8.8"
bson = { version = "=2.15.0", features = ["uuid-1"] }
mongodb = "3"
