[package]
name = "amp_core"
version = "0.1.0"
edition = "2021"
publish = false

[dependencies]
chrono = { version = "=0.4.45", features = ["serde"] }
dirs = "*"
dotenvy = "*"
geojson = "=1.0.0"
parking_lot = "0.12"
reqwest = { version = "=0.12.28", default-features = false, features = ["json", "rustls-tls"] }
rstar = "=0.13.0"
rust_decimal = { version = "=1.43.0", features = ["serde"] }
serde = { version = "=1.0.229", features = ["derive"] }
serde_json = "=1.0.154"
sha2 = "0.10"
thiserror = "2"
tokio = { version = "=1.54.1", features = ["macros", "rt-multi-thread", "time"] }
urlencoding = "2"
uuid = { version = "1", features = ["v4"] }
