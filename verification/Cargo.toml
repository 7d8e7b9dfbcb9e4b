[package]
name = "cargo_flaky"
version = "0.1.0"
edition = "2021"
publish = false

[dependencies]
anyhow = "*"
clap = { version = "*", features = ["derive"] }
ctrlc = "*"
indicatif = "*"
num_cpus = "*"
once_cell = "*"
serde_json = "*"
subprocess = "*"
tempfile = "*"
