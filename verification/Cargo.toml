[package]
name = "spark_cli"
version = "0.1.0"
edition = "2021"
publish = false

[dependencies]
serde_json = "*"
serde = { version = "*", features = ["derive"] }
reqwest = { version = "*", default-features = false, features = ["json", "stream"] }
tokio = { version = "*", features = ["macros", "rt-multi-thread"] }
clap = { version = "*", features = ["derive"] }
futures-util = "*"
chrono = "*"
anyhow = "*"
console = "*"
dialoguer = "*"
indicatif = "*"
dirs = "*"
toml = "*"
tracing-subscriber = { version = "*", features = ["env-filter"] }
