[package]
name = "ap2pmsg"
version = "0.1.0"
edition = "2021"
publish = false

[dependencies]
rand = "0.8"
rand-unique = "*"
time = { version = "*", features = ["std", "local-offset"] }
rusqlite = { version = "*", features = ["bundled"] }
serde = "*"
serde_json = "*"
