[package]
name = "kiln"
version = "0.1.0"
edition = "2021"
publish = false

[dependencies]
anyhow = "=1.0.104"
clap = { version = "=4.6.7", features = ["derive"] }
directories-next = "=2.0.0"
futures = "=0.3.34"
reqwest = "=0.13.5"
rfd = { version = "=0.17.2", default-features = false, features = ["xdg-portal"] }
serde = { version = "=1.0.229", features = ["derive"] }
serde_json = "=1.0.154"
tokio = { version = "=1.54.1", features = ["fs", "io-util", "macros", "rt-multi-thread"] }
zstd = "=0.13.3"

[dev-dependencies]
rmp-serde = "=1.3.1"
