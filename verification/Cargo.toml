[package]
name = "dservice"
version = "0.1.0"
edition = "2021"
publish = false

[dependencies]
anyhow = "1"
async-trait = "0.1"
axum = "0.8"
clap = { version = "4", features = ["derive"] }
dotenv = "0.15"
hex = "=0.4.3"
serde = { version = "1", features = ["derive"] }
serde_json = "1"
sqlx = { version = "0.9", default-features = false, features = ["derive"] }
substring = "=1.4.5"
tokio = { version = "1", features = ["full"] }
tower = { version = "0.5", features = ["timeout"] }
tower-http = { version = "0.7", features = ["cors"] }
tracing = "0.1"
tracing-subscriber = "0.3"
ureq = { version = "2", default-features = false, features = ["json"] }
