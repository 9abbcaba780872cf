[package]
name = "stellaris_performance_test"
version = "0.1.0"
edition = "2021"
publish = false

[dependencies]
rand = "0.7"
arrayfire = "3"
crossterm = "0.27"
num-format = "0.4"
tokio = { version = "1", features = ["rt-multi-thread", "macros"] }
