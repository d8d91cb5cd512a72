[package]
name = "parallel_loop"
version = "0.1.0"
edition = "2021"
publish = false

[dependencies]
futures = { version = "0.3", default-features = false, features = ["std"] }
tokio = { version = "1", default-features = false, features = ["rt", "sync"] }
tokio-stream = { version = "0.1", default-features = false }
