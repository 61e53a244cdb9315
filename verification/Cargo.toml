[package]
name = "newsletter"
version = "0.1.0"
edition = "2021"
publish = false

[dependencies]
actix-web = { version = "=4.15.0", default-features = false }
chrono = "=0.4.45"
config = { version = "=0.15.27", default-features = false, features = ["yaml"] }
secrecy = "=0.8.0"
serde = { version = "=1.0.229", features = ["derive"] }
sqlx = { version = "=0.9.0", default-features = false, features = ["runtime-tokio", "postgres", "uuid", "chrono"] }
tokio = { version = "=1.53.2", features = ["macros", "rt-multi-thread"] }
tracing-log = "=0.2.0"
uuid = { version = "=1.27.0", features = ["v4"] }
