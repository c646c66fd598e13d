[package]
name = "credit_decisioning"
version = "0.1.0"
edition = "2021"
publish = false

[dependencies]
calamine = "=0.36.1"
warp = { version = "=0.4.3", features = ["server"] }
tokio = { version = "=1.53.2", features = ["macros", "rt-multi-thread"] }
serde = { version = "=1.0.229", features = ["derive"] }
bytes = "=1.12.1"
