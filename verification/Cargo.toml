[package]
name = "rustbelt"
version = "0.1.0"
edition = "2021"
publish = false

[dependencies]
clap = "2"
colored = "*"
hyper = { version = "0.14", features = ["server", "http1", "tcp"] }
ipnetwork = "*"
pnet = "*"
qrcode = "*"
tokio = { version = "1", features = ["macros", "rt-multi-thread", "signal"] }
