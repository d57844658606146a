[package]
name = "offline_messenger"
version = "0.1.0"
edition = "2021"
publish = false

[dependencies]
aes-gcm = "0.10"
x25519-dalek = "2"
sha2 = "0.10"
serde = { version = "1", features = ["derive"] }
serde_json = "1"
chrono = "0.4"
rusqlite = { version = "0.37", features = ["bundled"] }
eframe = { version = "0.31", default-features = false, features = ["default_fonts", "glow", "x11"] }
