[package]
name = "tyre_strategy"
version = "0.1.0"
edition = "2021"
publish = false

[dependencies]
csv = "1"
linfa = "0.7"
linfa-linear = "0.7"
ndarray = "0.15"
serde = { version = "1", features = ["derive"] }
