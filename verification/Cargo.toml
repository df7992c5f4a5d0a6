[package]
name = "seesaw"
version = "0.1.0"
edition = "2021"
publish = false

[dependencies]
anyhow = "1"
async-trait = "0.1"
chrono = { version = "0.4", features = ["serde"] }
serde = { version = "1", features = ["derive"] }
serde_json = "1"
sqlx = { version = "0.8", default-features = false, features = ["postgres", "runtime-tokio", "chrono", "uuid", "json"] }
tokio = { version = "1", features = ["sync", "rt", "macros", "time"] }
uuid = { version = "1", features = ["v4", "serde"] }
