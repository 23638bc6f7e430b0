[package]
name = "unitypacker"
version = "0.1.0"
edition = "2021"
publish = false

[dependencies]
clap = { version = "4", features = ["derive"] }
flate2 = "1"
tar = "0.4"
walkdir = "2"
yaml-rust = "0.4"
