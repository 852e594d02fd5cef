[package]
name = "wumpusworld"
version = "0.1.0"
edition = "2021"
publish = false

[dependencies]
itertools = "0.13"
rand = "0.8"
serde = { version = "1", features = ["derive"] }
serde_json = "1"
