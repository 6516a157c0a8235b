[package]
name = "swap_history"
version = "0.1.0"
edition = "2021"
publish = false

[dependencies]
anyhow = "1"
bigdecimal = { version = "*", features = ["serde"] }
chrono = { version = "0.4", features = ["serde"] }
csv = "1"
env_logger = "*"
futures = "0.3"
graphql_client = "*"
log = "0.4"
reqwest = { version = "*", features = ["json"] }
rust_decimal = "1"
serde = { version = "1", features = ["derive"] }
tokio = { version = "1", features = ["macros", "rt-multi-thread"] }
web3 = { version = "*", default-features = false }
