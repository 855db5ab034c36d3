[package]
name = "tusker"
version = "0.1.0"
edition = "2021"
publish = false

[dependencies]
sha2 = "0.10"
tokio-postgres = "0.7"
postgres-types = "0.2"
serde = { version = "1", features = ["derive"] }
serde_json = "1"
clap = { version = "4", features = ["derive"] }
termcolor = "1"
tokio = { version = "1", features = ["rt-multi-thread", "macros", "fs", "io-util"] }
toml = "0.8"
config = { version = "0.14", default-features = false, features = ["toml"] }
glob = "0.3"
uzers = "0.12"
time = "0.3"
anyhow = "1"
hex = { version = "0.4", features = ["serde"] }
itertools = "0.13"
thiserror = "1"
