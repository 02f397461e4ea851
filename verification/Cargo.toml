[package]
name = "task_storage"
version = "0.1.0"
edition = "2021"
publish = false

[dependencies]
dashmap = { version = "6.1", features = ["raw-api"] }
rustc-hash = "2.1"
smallvec = "1.13"
thread_local = "1.1"
