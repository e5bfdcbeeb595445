[package]
name = "ndimixer"
version = "0.1.0"
edition = "2021"
publish = false

[dependencies]
anyhow = "*"
axum = "*"
base64 = "*"
chromiumoxide = { version = "*", default-features = false, features = ["tokio-runtime"] }
clap = { version = "*", features = ["derive"] }
futures = "*"
grafton-ndi = "*"
image = { version = "*", default-features = false, features = ["png"] }
pollster = "*"
serde = { version = "*", features = ["derive"] }
tokio = { version = "*", features = ["macros", "rt-multi-thread", "time", "signal", "net"] }
tokio-util = "*"
toml = "*"
tracing = "*"
tracing-subscriber = { version = "*", features = ["env-filter"] }
wgpu = "*"
