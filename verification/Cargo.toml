[package]
name = "quantum_pool"
version = "0.1.0"
edition = "2021"
publish = false

[dependencies]
rand = "*"
tokio = { version = "*", features = ["rt", "rt-multi-thread", "sync", "macros", "time"] }
ndarray = "*"
ndarray-rand = "*"
num = "*"
serde = { version = "*", features = ["derive"] }
