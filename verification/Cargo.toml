[package]
name = "integ"
version = "0.1.0"
edition = "2021"
publish = false

[dependencies]
egg = "=0.11.0"
clap = { version = "=4.6.7", features = ["derive"] }
