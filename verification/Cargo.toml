[package]
name = "search"
version = "0.1.0"
edition = "2021"
publish = false

[dependencies]
actix-web = { version = "4", default-features = false, features = ["macros"] }
actix-cors = "0.7"
actix-files = "0.6"
quick-xml = "0.30"
serde = { version = "1", features = ["derive"] }
serde_json = "1"
stop-words = "*"
