[package]
name = "course_sync"
version = "0.1.0"
edition = "2021"
publish = false

[dependencies]
md5 = "0.7"
reqwest = { version = "0.12", features = ["json"] }
serde = { version = "1", features = ["derive"] }
serde_json = "1"
tokio = { version = "1", features = ["rt-multi-thread", "macros"] }
indicatif = "0.17"
