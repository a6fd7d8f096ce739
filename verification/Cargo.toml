[package]
name = "dex_pipeline"
version = "0.1.0"
edition = "2021"
publish = false

[dependencies]
async-nats = "=0.50.0"
bigdecimal = "=0.4.11"
chrono = "=0.4.45"
clap = { version = "=4.6.7", features = ["derive"] }
config = { version = "=0.15.27", default-features = false, features = ["toml"] }
eyre = "*"
futures-util = "*"
serde = { version = "*", features = ["derive"] }
serde_json = "*"
sqlx = { version = "=0.9.0", default-features = false, features = ["runtime-tokio", "postgres", "chrono", "bigdecimal"] }
tokio = { version = "=1.53.2", features = ["rt-multi-thread", "macros", "time"] }
tracing = "*"
tracing-subscriber = { version = "*", features = ["env-filter"] }
