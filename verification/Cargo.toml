[package]
name = "ree_types"
version = "0.1.0"
edition = "2021"
publish = false

[dependencies]
bitcoin = "0.32"
serde = { version = "1", features = ["derive"] }
candid = "0.10"

[dev-dependencies]
serde_json = "1"
