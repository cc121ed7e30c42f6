[package]
name = "noir_harness"
version = "0.1.0"
edition = "2021"
publish = false

[dependencies]
acvm = "=0.46.0"
bn254_blackbox_solver = "=0.46.0"
