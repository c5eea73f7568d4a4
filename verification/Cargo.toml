[package]
name = "orgstats"
version = "0.1.0"
edition = "2021"
publish = false

[dependencies]
actix-files = "=0.7.0"
actix-web = "=4.15.0"
async-openai = { version = "=0.42.1", features = ["chat-completion"] }
chrono = "=0.4.45"
octocrab = "=0.41.2"
rusqlite = { version = "=0.40.2", features = ["bundled"] }
serde = { version = "=1.0.229", features = ["derive"] }
serde_json = "=1.0.151"
tokio = { version = "=1.53.2", features = ["macros", "rt-multi-thread"] }
