[package]
name = "deepq"
version = "0.1.0"
edition = "2021"
publish = false

[dependencies]
shakmaty = "=0.30.1"
serde = { version = "=1.0.229", features = ["derive"] }
serde_json = "=1.0.151"
tokio = { version = "=1.53.2", features = ["sync", "rt-multi-thread", "macros"] }
warp = { version = "=0.4.3", features = ["server"] }
reqwest = { version = "=0.13.5", default-features = false, features = ["json"] }
