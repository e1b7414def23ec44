[package]
name = "charging_station"
version = "0.1.0"
edition = "2021"
publish = false

[dependencies]
chrono = { version = "0.4", features = ["serde"] }
uuid = { version = "1", features = ["v4", "serde"] }
sha2 = "0.10"
serde = { version = "1", features = ["derive"] }
serde_json = "1"
parking_lot = "0.12"
lazy_static = "1"
dotenv = "0.15"
env_logger = "*"
tokio = { version = "1", features = ["rt-multi-thread", "macros", "time", "sync"] }
actix-web = { version = "4", default-features = false, features = ["macros"] }
actix-cors = "*"
sqlx = { version = "0.8", default-features = false, features = ["mysql", "runtime-tokio", "chrono", "uuid"] }
