[package]
name = "forge_coverage"
version = "0.1.0"
edition = "2021"
publish = false

[dependencies]
clap = { version = "=3.2.25", features = ["derive"] }
ethers = { version = "=2.0.14", default-features = false, features = ["solc"] }
eyre = "=0.6.14"
proptest = "=1.12.0"
