[package]
name = "image_registry"
version = "0.1.0"
edition = "2021"
publish = false

[dependencies]
sha2 = "*"
rusty_ulid = "*"
actix-web = "*"
futures-util = "*"
serde = { version = "*", features = ["derive"] }
serde_json = "*"
tracing = "*"
tracing-subscriber = "*"
color-eyre = "*"
