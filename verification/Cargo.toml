[package]
name = "evm_assembler"
version = "0.1.0"
edition = "2021"
publish = false

[dependencies]
revm = { version = "=9.0.0", default-features = false, features = ["std", "optional_eip3607"] }
tokio = { version = "1", features = ["rt-multi-thread", "macros"] }
clap = { version = "4", features = ["derive"] }
indicatif = { version = "0.17" }
anyhow = { version = "1" }
