[package]
name = "pine_tails"
version = "0.1.0"
edition = "2021"
publish = false

[dependencies]
slug = "=0.1.6"
uuid = { version = "=1.27.0", features = ["v4", "serde"] }
chrono = "=0.4.45"
unicode-segmentation = "=1.13.3"
actix-web = "=4.15.0"
actix-multipart = "=0.8.5"
actix-files = "=0.7.0"
actix-cors = "=0.7.2"
sqlx = { version = "=0.9.0", default-features = false, features = ["runtime-tokio", "postgres", "chrono", "uuid"] }
tokio = { version = "=1.53.2", features = ["macros", "rt-multi-thread"] }
serde = { version = "=1.0.229", features = ["derive"] }
serde_json = "=1.0.151"
config = "=0.15.27"
secrecy = { version = "=0.10.3", features = ["serde"] }
anyhow = "=1.0.104"
thiserror = "=2.0.21"
tracing = "=0.1.44"
tracing-subscriber = { version = "=0.3.23", features = ["env-filter", "json"] }
tracing-log = "=0.1.4"
tracing-bunyan-formatter = "=0.3.10"
tracing-actix-web = "=0.7.25"
is-terminal = "=0.4.17"

[dev-dependencies]
fake = "=5.1.0"
