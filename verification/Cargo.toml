[package]
name = "feed_relay"
version = "0.1.0"
edition = "2021"
publish = false

[dependencies]
anyhow = "=1.0.104"
base36 = "=0.0.1"
dotenv = "=0.15.0"
frankenstein = { version = "=0.52.1", features = ["client-reqwest"] }
roux = "=2.3.0"
sqlx = { version = "=0.9.0", features = ["postgres", "runtime-tokio"] }
tokio = { version = "=1.53.2", features = ["macros", "rt-multi-thread", "time"] }
