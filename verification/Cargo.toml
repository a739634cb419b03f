[package]
name = "openhousepopulator"
version = "0.1.0"
edition = "2021"
publish = false

[dependencies]
osmpbfreader = "*"
serde = { version = "*", features = ["derive"] }
reqwest = { version = "*", default-features = false, features = ["blocking"] }
