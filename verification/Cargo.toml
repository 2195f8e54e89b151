[package]
name = "lobby_state"
version = "0.1.0"
edition = "2021"
publish = false

[dependencies]
parking_lot = "*"
tokio = { version = "*", features = ["rt-multi-thread", "sync", "macros", "time"] }
