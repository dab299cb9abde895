[package]
name = "room_core"
version = "0.1.0"
edition = "2021"
publish = false

[dependencies]
slab = "0.4"
rand = "0.8"
tokio = { version = "1", features = ["sync", "net", "rt", "macros"] }
anyhow = "1"
libhydrogen = "*"
