[package]
name = "paperless_llm"
version = "0.1.0"
edition = "2021"
publish = false

[dependencies]
anyhow = "*"
clap = { version = "*", features = ["derive"] }
dialoguer = "*"
futures = "*"
governor = "*"
indicatif = "*"
prettydiff = "*"
reqwest = { version = "*", default-features = false, features = ["json"] }
serde = { version = "*", features = ["derive"] }
serde_json = "*"
tokio = { version = "*", features = ["macros", "rt-multi-thread"] }
tracing = "*"
tracing-indicatif = "*"
tracing-subscriber = { version = "*", features = ["env-filter", "fmt"] }
