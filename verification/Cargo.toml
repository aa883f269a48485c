[package]
name = "donations"
version = "0.1.0"
edition = "2021"
publish = false

[dependencies]
chrono = "*"
serde = { version = "*", features = ["derive"] }
actix-web = { version = "*", default-features = false, features = ["macros"] }
reqwest = { version = "*", default-features = false }
