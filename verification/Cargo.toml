[package]
name = "db2md"
version = "0.1.0"
edition = "2021"
publish = false

[dependencies]
calamine = { version = "*", features = ["dates"] }
chrono = "*"
yaml-rust2 = "*"
smol = "*"
