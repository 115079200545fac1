[package]
name = "version_ledger"
version = "0.1.0"
edition = "2021"
publish = false

[dependencies]
uuid = { version = "=1.27.0", features = ["v4", "serde"] }
serde = { version = "=1.0.229", features = ["derive"] }
serde_json = "=1.0.151"
chrono = { version = "=0.4.45", features = ["serde"] }
sqlx = { version = "=0.9.0", default-features = false, features = ["runtime-tokio", "postgres", "uuid", "chrono", "derive"] }
pgvector = { version = "=0.4.2", features = ["sqlx"] }
lapin = { version = "=2.5.5", default-features = false }
actix-web = { version = "=4.15.0", default-features = false, features = ["macros"] }
actix-multipart = "=0.7.2"
futures-util = "=0.3.34"
reqwest = { version = "=0.12.28", default-features = false, features = ["json"] }
config = { version = "=0.14.1", default-features = false, features = ["toml"] }
