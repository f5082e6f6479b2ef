[package]
name = "pizzeria"
version = "0.1.0"
edition = "2021"
publish = false

[dependencies]
urlencoding = "*"
axum = "*"
tokio = { version = "*", features = ["full"] }
serde = { version = "*", features = ["derive"] }
libc = "*"
