[package]
name = "proglog"
version = "0.1.0"
edition = "2021"
publish = false

[dependencies]
anyhow = "1"
async-trait = "0.1"
axum = "0.8"
base64 = "0.22"
byteorder = "1"
casbin = "2"
dirs = "6"
memmap2 = "0.9"
prost = "0.13"
serde = { version = "1", features = ["derive"] }
serde_json = { version = "1", features = ["preserve_order"] }
tokio = { version = "1", features = ["rt-multi-thread", "macros", "net", "sync"] }
tokio-stream = "0.1"
tonic = { version = "0.13", features = ["tls-ring"] }
x509-parser = "0.17"
