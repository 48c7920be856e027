[package]
name = "author_console"
version = "0.1.0"
edition = "2021"
publish = false

[dependencies]
anyhow = "1.0"
hex = "0.4"
hyper = "0.13"
rand = "0.7"
serde = { version = "1.0", features = ["derive"] }
serde_json = "1.0"
tokio = { version = "0.2", features = ["macros", "rt-threaded"] }
