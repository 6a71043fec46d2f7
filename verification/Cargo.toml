[package]
name = "sonar"
version = "0.1.0"
edition = "2021"
publish = false

[dependencies]
argon2rs = "0.2"
rand = "0.4"
chrono = "0.4"
diesel = { version = "2", features = ["sqlite", "r2d2", "chrono"] }
dotenv = "0.15"
r2d2 = "0.8"
rocket = { version = "0.5", features = ["json"] }
