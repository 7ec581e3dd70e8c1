[package]
name = "varbit"
version = "0.1.0"
edition = "2021"
publish = false

[dependencies]
serde = { version = "1", features = ["derive"] }
serde_json = "1"
tokio = { version = "1", features = ["rt-multi-thread", "sync", "macros", "time"] }
tokio-context = "*"
uuid = { version = "1", features = ["v4"] }
mongodb = "*"
chrono = "0.4"
sqlx = { version = "*", features = ["mysql", "runtime-tokio"] }
rdkafka = "*"
