[package]
name = "pragya"
version = "0.1.0"
edition = "2021"
publish = false

[dependencies]
image = "0.25"
serde = { version = "1", features = ["derive"] }
serde_json = "1"
tokio = { version = "1", features = ["rt-multi-thread", "time", "macros"] }
