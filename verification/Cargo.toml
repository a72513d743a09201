[package]
name = "abcd"
version = "0.1.0"
edition = "2021"
publish = false

[dependencies]
blake3 = { version = "1", features = ["pure"] }
chrono = "0.4"
csv = "1"
dotenvy = "0.15"
futures-util = "0.3"
rust_decimal = "1"
serde = { version = "1", features = ["derive"] }
serde_json = "1"
sqlx = { version = "0.8", default-features = false, features = ["mysql", "runtime-tokio", "chrono", "rust_decimal", "macros"] }
tokio = { version = "1", features = ["macros", "rt-multi-thread"] }
