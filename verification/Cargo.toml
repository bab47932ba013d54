[package]
name = "bal_server"
version = "0.3.2"
edition = "2021"
publish = false

[dependencies]
bitcoin = "0.32"
bs58 = "0.5"
sha2 = "0.10"
url = "2"
hex-conservative = "0.2"
actix-web = "4"
actix-governor = "*"
sqlite = "*"
serde = { version = "1", features = ["derive"] }
serde_json = "1"
chrono = "0.4"
log = "0.4"
env_logger = "*"
zmq = "*"
bitcoincore-rpc = "0.19"
bitcoincore-rpc-json = "0.19"
reqwest = { version = "0.12", features = ["json"] }
openssl = "0.10"
tokio = { version = "1", features = ["rt-multi-thread", "macros"] }
base64 = "0.22"
byteorder = "1"
hex = "0.4"
