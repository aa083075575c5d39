[package]
name = "dock"
version = "0.1.0"
edition = "2021"
publish = false

[dependencies]
uuid = { version = "1", features = ["v4"] }
anyhow = "1"
clap = { version = "4", features = ["derive"] }
dirs = "*"
tokio = { version = "1", features = ["macros", "rt-multi-thread"] }
