[package]
name = "raftchat"
version = "0.1.0"
edition = "2021"
publish = false

[dependencies]
rand = "0.8"
chrono = { version = "0.4", features = ["serde"] }
bebop = "*"
serde = { version = "1", features = ["derive"] }
serde_json = "1"
bincode = "1"
tokio = { version = "1", features = ["full"] }
tokio-util = "0.7"
tokio-tungstenite = "0.21"
futures-util = "0.3"
axum = "0.7"
tower-http = { version = "0.5", features = ["fs"] }
clap = { version = "4", features = ["derive"] }
dotenv = "0.15"
log = "0.4"
log4rs = "1"
prometheus-client = "0.22"
parking_lot = "0.12"
hyper = { version = "1", features = ["full"] }
hyper-util = { version = "0.1", features = ["full"] }
http-body-util = "0.1"
tonic = "0.12"
prost = "0.13"
rkyv = { version = "0.7", features = ["validation"] }
