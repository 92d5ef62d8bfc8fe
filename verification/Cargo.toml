[package]
name = "recop_asm"
version = "0.1.0"
edition = "2021"
publish = false

[dependencies]
anyhow = "1"
bitvec = "1"
clap = { version = "4", features = ["derive"] }
crossterm = "*"
deku = "*"
serde = { version = "1", features = ["derive"] }
toml = "*"
