[package]
name = "chord"
version = "0.1.0"
edition = "2021"
publish = false

[dependencies]
serenity = { version = "0.11", features = ["collector"] }
tokio = { version = "1", features = ["sync", "macros", "rt-multi-thread"] }
tracing = "0.1"
shuttle-runtime = "0.20"
shuttle-secrets = "0.20"
shuttle-serenity = "0.20"
