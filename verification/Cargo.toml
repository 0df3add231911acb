[package]
name = "catscii"
version = "0.1.0"
edition = "2021"
publish = false

[dependencies]
image = "*"
artem = "*"
axum = "*"
tokio = { version = "*", features = ["macros", "rt-multi-thread", "net"] }
reqwest = { version = "*", default-features = false }
tracing = "*"
tracing-subscriber = { version = "*", features = ["json"] }
