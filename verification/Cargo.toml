[package]
name = "ioi_kernel"
version = "0.1.0"
edition = "2021"
publish = false

[dependencies]
dcrypt = "*"
prost = "*"
parity-scale-codec = { version = "*", features = ["derive"] }
serde = { version = "*", features = ["derive"] }
serde_json = "*"
serde_jcs = "*"
hex = "*"
