[package]
name = "battery_modify"
version = "0.1.0"
edition = "2021"
publish = false

[dependencies]
nix = { version = "0.29", features = ["time"] }
time = { version = "0.3", features = ["formatting", "macros", "local-offset"] }
