[package]
name = "allein"
version = "0.1.0"
edition = "2021"
publish = false

[dependencies]
unicode-normalization = "0.1"
serde = { version = "1", features = ["derive"] }
serde_json = "1"
rusqlite = { version = "*", features = ["bundled"] }
dirs = "*"
chrono = "0.4"
once_cell = "1"
tauri = { version = "2", default-features = false }
