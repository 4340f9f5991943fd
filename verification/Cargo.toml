[package]
name = "deep_index_board"
version = "0.1.0"
edition = "2021"
publish = false

[dependencies]
sha2 = "0.10"
hex = "0.4"
uuid = { version = "1", features = ["v4"] }
image = "0.25"
rusqlite = { version = "*", features = ["bundled"] }
sqlite-vec = "*"
arboard = "3"
sysinfo = "*"
threadpool = "1.8"
log = "0.4"
env_logger = "*"
serde = { version = "1", features = ["derive"] }
tokio = { version = "1", features = ["sync"] }
