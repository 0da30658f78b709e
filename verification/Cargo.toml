[package]
name = "ai_proxy"
version = "0.1.0"
edition = "2021"
publish = false

[dependencies]
anyhow = "*"
async-openai = { version = "=0.42.1", features = ["chat-completion"] }
chrono = "=0.4.45"
clap = { version = "*", features = ["derive", "env"] }
directories = "*"
dotenvy = "*"
reqwest = { version = "*", default-features = false, features = ["rustls-tls"] }
scraper = "=0.27.0"
serde = { version = "*", features = ["derive"] }
serde_json = "=1.0.151"
tokio = { version = "*", features = ["rt-multi-thread", "macros", "signal", "time"] }
