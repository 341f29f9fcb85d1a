[package]
name = "double_blind"
version = "0.1.0"
edition = "2021"
publish = false

[dependencies]
anyhow = "=1.0.104"
clap = { version = "=4.6.7", features = ["derive"] }
dotenvy = "=0.15.7"
plonky2 = "=0.2.2"
reqwest = { version = "=0.12.28", default-features = false, features = ["rustls-tls"] }
serde = { version = "=1.0.229", features = ["derive"] }
serde_json = "=1.0.154"
ssh-key = "=0.6.7"
tokio = { version = "=1.54.1", features = ["macros", "rt-multi-thread"] }
