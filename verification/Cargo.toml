[package]
name = "axidraw_relay"
version = "0.1.0"
edition = "2021"
publish = false

[dependencies]
clap = { version = "=4.6.7", features = ["derive"] }
prost = "=0.14.4"
serialport = { version = "=4.10.1", default-features = false }
tokio = { version = "=1.54.1", features = ["full"] }
tokio-stream = "=0.1.19"
tonic = "=0.14.6"
tonic-prost = "=0.14.6"
