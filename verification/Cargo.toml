[package]
name = "claymore"
version = "0.1.0"
edition = "2021"
publish = false

[dependencies]
serde = { version = "=1.0.229", features = ["derive"] }
serde_json = "=1.0.151"
rand = "=0.10.3"
tiktoken-rs = "=0.12.1"
uuid = { version = "=1.27.0", features = ["v4", "serde"] }
tokio = { version = "=1.53.2", features = ["rt-multi-thread", "macros"] }
lapin = "=4.12.0"
sqlx = { version = "=0.8.6", default-features = false, features = ["runtime-tokio-rustls", "postgres", "uuid", "json"] }
csv = "=1.4.0"
reqwest = { version = "=0.12.28", default-features = false, features = ["json", "multipart", "rustls-tls"] }
async-openai = { version = "=0.42.1", features = ["chat-completion"] }
clap = { version = "=4.6.7", features = ["derive", "env"] }
log = "=0.4.34"
anyhow = "=1.0.104"
