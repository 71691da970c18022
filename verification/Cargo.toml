[package]
name = "rendezvous"
version = "0.1.0"
edition = "2021"
publish = false

[dependencies]
serde_json = "*"
nanoid = "*"
enet = "*"
tokio = { version = "*", features = ["net", "rt"] }
