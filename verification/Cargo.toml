[package]
name = "saunadge"
version = "0.1.0"
edition = "2021"
publish = false

[dependencies]
scraper = "*"
actix-web = "*"
reqwest = { version = "*", features = ["blocking"] }
serde = { version = "*", features = ["derive"] }

[dev-dependencies]
serde_json = "*"
