[package]
name = "htmlwp"
version = "0.1.0"
edition = "2021"
publish = false

[dependencies]
base64 = "*"
lightningcss = "1.0.0-alpha.72"
minify-js = "*"
serde = { version = "*", features = ["derive"] }
serde_json = "*"
axum = "*"
tokio = { version = "*", features = ["rt-multi-thread", "macros", "net"] }
reqwest = { version = "*", default-features = false }
image = { version = "*", default-features = false, features = ["png", "jpeg", "webp", "gif"] }
tower-http = { version = "*", features = ["cors"] }
