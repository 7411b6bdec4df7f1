[package]
name = "note_vault"
version = "0.1.0"
edition = "2021"
publish = false

[dependencies]
anyhow = "1"
chacha20poly1305 = "0.10"
chrono = { version = "0.4", features = ["serde"] }
rand = "0.8"
rand_chacha = "0.3"
serde = { version = "1", features = ["derive"] }
serde_json = "1"
ureq = "2"
uuid = { version = "1", features = ["v4", "serde"] }

[dev-dependencies]
bincode = "1.3"
