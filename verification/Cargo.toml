[package]
name = "est"
version = "0.3.0"
edition = "2021"
publish = false

[dependencies]
anyhow = "*"
derive_more = { version = "*", features = ["display"] }
indexmap = "*"
ron = "*"
serde = { version = "*", features = ["derive"] }
thiserror = "*"
tokio = { version = "*", features = ["rt"] }
tokio-util = { version = "*", features = ["rt"] }
