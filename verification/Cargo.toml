[package]
name = "bounded_async_worker_pool"
version = "0.1.0"
edition = "2021"
publish = false

[dependencies]
tokio = { version = "1", features = ["rt", "sync", "macros", "time"] }
