[package]
name = "nickledger"
version = "0.1.0"
edition = "2021"
publish = false

[dependencies]
sled = "=0.34.7"
derangement = "=0.1.3"
rand = "=0.8.8"
serenity = "=0.12.5"
tokio = { version = "*", features = ["macros", "rt-multi-thread"] }
futures = "*"
clap = { version = "*", features = ["derive"] }
log = "*"
simple_logger = "*"
