[package]
name = "backrun"
version = "0.1.0"
edition = "2021"
publish = false

[dependencies]
alloy = { version = "*", default-features = false, features = ["sol-types"] }
axum = { version = "*", default-features = false, features = ["http1", "json", "tokio"] }
dotenv = "*"
futures-util = { version = "*", default-features = false, features = ["std"] }
reqwest = { version = "*", default-features = false, features = ["json"] }
serde = { version = "*", features = ["derive"] }
serde_json = "*"
tokio = { version = "*", default-features = false, features = ["fs", "macros", "net", "rt-multi-thread", "sync", "time"] }
tracing = { version = "*", default-features = false, features = ["std"] }
tracing-subscriber = { version = "*", default-features = false, features = ["fmt", "std"] }
