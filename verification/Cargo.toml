[package]
name = "bitcoin_fee_model"
version = "0.1.0"
edition = "2021"
publish = false

[dependencies]
rustc_apfloat = "*"
chrono = "0.4"
serde = "1"
bitcoin = "0.26"
