[package]
name = "overlay_contrast"
version = "0.1.0"
edition = "2021"
publish = false

[dependencies]
photon-rs = "*"
netlify_lambda_http = "*"
serde = { version = "1", features = ["derive"] }
serde_json = "1"
tokio = { version = "1", features = ["macros", "rt-multi-thread"] }
