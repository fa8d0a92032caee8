[package]
name = "odx_desktop"
version = "0.1.0"
edition = "2021"
publish = false

[dependencies]
lzma-rs = "*"
serde = { version = "1", features = ["derive"] }
serde_json = "1"
bincode = "1"
tokio = { version = "1", features = ["fs", "net", "time", "io-util", "rt-multi-thread", "macros"] }
doip_rw = "*"
doip_rw_tokio = "0.1.1"
zip = { version = "*", default-features = false, features = ["deflate"] }
