[package]
name = "exact_money"
version = "0.1.0"
edition = "2021"
publish = false

[dependencies]
rust_decimal = { version = "1", features = ["serde-with-str"] }
iso_currency = "*"
serde = { version = "1", features = ["derive"] }
thiserror = "*"
eyre = "*"
