[package]
name = "libcgroups"
version = "0.1.0"
edition = "2021"
publish = false

[dependencies]
nix = { version = "0.29", features = ["process", "signal"] }
thiserror = "2"
tracing = "0.1"
