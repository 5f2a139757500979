[package]
name = "authn"
version = "0.1.0"
edition = "2021"
publish = false

[dependencies]
rust-argon2 = "=3.0.0"
jsonwebtoken = { version = "=11.1.0", features = ["use_pem", "rust_crypto"] }
rusqlite = { version = "=0.40.2", features = ["bundled"] }
base64 = "=0.22.1"
rand = "=0.8.8"
serde = { version = "*", features = ["derive"] }
serde_json = "*"
tokio = { version = "*", features = ["rt-multi-thread", "macros", "sync", "net", "time"] }
hyper = { version = "=0.14.32", features = ["http1", "server", "client", "tcp"] }
hyperlocal = "=0.8.0"
http = "=0.2.12"
