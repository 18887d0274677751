[package]
name = "swimps"
version = "0.1.0"
edition = "2021"
publish = false

[dependencies]
chrono = "0.4"
clap = { version = "3", features = ["derive"] }
crossterm = "0.25"
fork = "0.1"
nix = "0.26"
tui = "0.19"
