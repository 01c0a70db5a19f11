[package]
name = "scbl-utils"
version = "0.1.0"
edition = "2021"
publish = false

[dependencies]
anyhow = "1"
camino = { version = "1", features = ["serde1"] }
clap = { version = "4", features = ["derive", "env"] }
console = "*"
csv = "1"
dotenvy = "*"
futures = "0.3"
itertools = "*"
reqwest = "*"
serde = { version = "1", features = ["derive"] }
serde_json = "1"
tokio = { version = "1", features = ["fs", "macros", "process", "rt-multi-thread"] }
toml = "*"
