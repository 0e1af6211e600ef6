[package]
name = "nat_relay"
version = "0.1.0"
edition = "2021"
publish = false

[dependencies]
bytes = "=0.5.6"
futures = "0.3"
stun3489 = "=0.5.0"
tokio = { version = "1", features = ["net", "rt", "sync", "time"] }
