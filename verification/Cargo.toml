[package]
name = "plural_kitty"
version = "0.1.0"
edition = "2021"
publish = false

[dependencies]
html-escape = "0.2"
percent-encoding = "2"
html_parser = "0.7"
tokio = { version = "1", features = ["full"] }
axum = { version = "0.6", features = ["headers"] }
hyper = { version = "0.14", features = ["full"] }
sqlx = { version = "0.7", default-features = false, features = ["postgres", "runtime-tokio-rustls"] }
serde = { version = "1", features = ["derive"] }
serde_json = "1"
serde_yaml = "0.9"
anyhow = "1"
tracing = "0.1"
tracing-subscriber = "0.3"
once_cell = "1"
