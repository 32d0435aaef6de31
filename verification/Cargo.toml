[package]
name = "cmdmux"
version = "0.1.0"
edition = "2021"
publish = false

[dependencies]
regex = "=1.13.1"
nix = { version = "=0.31.3", features = ["process", "fs"] }
libc = "=0.2.190"
serde = "=1.0.229"
serde_derive = "=1.0.229"
serde_yaml = "=0.9.34"
