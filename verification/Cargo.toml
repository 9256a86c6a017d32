[package]
name = "criu_coordinator"
version = "0.1.0"
edition = "2021"
publish = false

[dependencies]
clap = { version = "4", features = ["derive"] }
clap_complete = "4"
libc = "0.2"
nix = "0.26"
slab = "0.4"
