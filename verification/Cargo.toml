[package]
name = "point_filter"
version = "0.1.0"
edition = "2021"
publish = false

[dependencies]
itertools = "*"
dashmap = "*"
anyhow = "*"
nalgebra = "*"
noisy_float = { version = "*", features = ["serde"] }
serde = { version = "*", features = ["derive"] }
json5 = "*"
clap = { version = "*", features = ["derive"] }
pcd-rs = { version = "*", features = ["derive"] }
