[package]
name = "cool_syntax"
version = "0.1.0"
edition = "2021"
publish = false

[dependencies]
clap = { version = "=4.6.7", features = ["derive"] }

[dev-dependencies]
chumsky = "=0.13.0"
