[package]
name = "pdf_slim"
version = "0.1.0"
edition = "2021"
publish = false

[dependencies]
lopdf = "*"
image = { version = "*", default-features = false, features = ["jpeg", "png"] }
flate2 = "*"
chrono = "*"
clap = { version = "4", features = ["derive"] }
serde = { version = "1", features = ["derive"] }
serde_json = "1"
anyhow = "1"
tracing = "*"
tracing-subscriber = "*"
