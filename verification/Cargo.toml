[package]
name = "cs310_shared"
version = "0.1.0"
edition = "2021"
publish = false

[dependencies]
uuid = { version = "1", features = ["v4", "serde"] }
petgraph = "0.6"
bimap = "0.6"
serde = { version = "1", features = ["derive"] }
serde_json = "1"
once_cell = "1"
