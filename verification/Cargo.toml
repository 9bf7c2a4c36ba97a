[package]
name = "lanscan"
version = "0.1.0"
edition = "2021"
publish = false

[dependencies]
color-eyre = "0.6"
futures = "0.3"
tokio = { version = "1", features = ["macros", "process", "rt-multi-thread"] }
