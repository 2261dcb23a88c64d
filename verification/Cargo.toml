[package]
name = "ccplan"
version = "0.1.0"
edition = "2021"
publish = false

[dependencies]
blake3 = "1"
jiff = "0.2"
clap = { version = "4", features = ["derive"] }
clap_complete = "4"
directories = "*"
fs2 = "0.4"
serde = { version = "1", features = ["derive"] }
serde_json = "1"
toml = "*"
thiserror = "2"
notify-rust = "4"
