[package]
name = "dragon_li"
version = "0.1.0"
edition = "2021"
publish = false

[dependencies]
url = "2"
serde = { version = "1", features = ["derive"] }
serde_json = "1"
rusqlite = { version = "*", features = ["bundled"] }
chrono = { version = "0.4", default-features = false, features = ["clock", "std"] }
tokio = { version = "1", features = ["net", "io-util", "time", "rt"] }
thiserror = "*"
dirs = "*"
tauri = { version = "2", default-features = false, features = ["wry"] }
