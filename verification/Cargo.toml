[package]
name = "nova_relay"
version = "0.1.0"
edition = "2021"
publish = false

[dependencies]
bytes = "1"
dashmap = "6"
futures-util = { version = "0.3", default-features = false, features = ["sink", "std"] }
log = "0.4"
rand = "0.8"
tokio = { version = "1", features = ["macros", "net", "rt", "rt-multi-thread", "sync", "time"] }
tokio-tungstenite = "*"
