[package]
name = "beefy_relay"
version = "0.1.0"
edition = "2021"
publish = false

[dependencies]
env_logger = "0.11"
hex = "0.4"
parity-scale-codec = "3"
sp-core = "*"
tokio = { version = "1", features = ["macros", "rt-multi-thread"] }

[dev-dependencies]
borsh = "1"
