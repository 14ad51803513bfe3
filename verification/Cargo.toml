[package]
name = "myps"
version = "0.1.0"
edition = "2021"
publish = false

[dependencies]
petgraph = "*"
itertools = "*"
serde = { version = "1", features = ["derive"] }
ron = "*"
thiserror = "1"
