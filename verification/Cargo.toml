[package]
name = "ipv8plus"
version = "0.1.0"
edition = "2021"
publish = false

[dependencies]
ahash = "=0.8.12"
base64 = "=0.22.1"
ed25519-dalek = "=2.2.0"
hmac = "=0.12.1"
lru = "=0.12.5"
rand_core = { version = "=0.6.4", features = ["getrandom", "std"] }
rusqlite = { version = "=0.31.0", features = ["bundled"] }
serde = { version = "=1.0.229", features = ["derive"] }
serde_json = "=1.0.154"
sha2 = "=0.10.9"
smallvec = "=1.16.4"
