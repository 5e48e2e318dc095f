[package]
name = "repo_birthday"
version = "0.1.0"
edition = "2021"
publish = false

[dependencies]
serde_json = "*"
serde = { version = "*", features = ["derive"] }
actix-web = { version = "*", default-features = false, features = ["macros"] }
anyhow = "*"
chrono = "*"
icalendar = "*"
magic-crypt = "*"
reqwest = { version = "*", default-features = false, features = ["json"] }
tokio = { version = "*", features = ["rt", "sync", "macros", "time"] }
