[package]
name = "embedstore"
version = "0.1.0"
edition = "2021"
publish = false

[dependencies]
bcrypt = "*"
jsonwebtoken = "9"
sanitize-filename = "*"
serde = { version = "1", features = ["derive"] }
serde_json = "1"
actix-web = { version = "4", default-features = false, features = ["macros"] }
actix-multipart = "*"
sqlx = { version = "0.8", default-features = false, features = ["sqlite", "runtime-tokio", "macros"] }
tokio = { version = "1", features = ["rt-multi-thread", "macros", "fs", "io-util", "sync"] }
futures = "0.3"
reqwest = { version = "0.12", default-features = false, features = ["json", "rustls-tls"] }
chrono = { version = "0.4", default-features = false, features = ["clock"] }
