[package]
name = "raug"
version = "0.1.0"
edition = "2021"
publish = false

[dependencies]
petgraph = "*"
rustc-hash = "*"
thiserror = "*"
serde = { version = "*", features = ["derive"] }
itertools = "*"
crossbeam-channel = "*"
rand = "*"
log = "*"
evalexpr = "*"
