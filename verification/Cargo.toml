[package]
name = "sauce"
version = "0.1.0"
edition = "2021"
publish = false

[dependencies]
clap = { version = "=4.6.7", features = ["derive"] }
inkwell = { version = "=0.11.0", features = ["llvm18-1"] }
thiserror = "=1.0.69"
