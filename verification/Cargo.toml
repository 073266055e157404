[package]
name = "track_payments"
version = "0.1.0"
edition = "2021"
publish = false

[dependencies]
aes-gcm = "*"
chrono = "*"
crossterm = "*"
internment = "*"
serde = { version = "*", features = ["derive"] }
serde_json = "*"
