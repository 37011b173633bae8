[package]
name = "vinox"
version = "0.1.0"
edition = "2021"
publish = false

[dependencies]
rand = "0.8"
zstd = "0.12"
serde = { version = "1", features = ["derive"] }
bincode = "1.3"
ron = "0.8"
walkdir = "2"
directories = "4"
rusqlite = { version = "0.28", features = ["bundled"] }
noise = "0.8"
