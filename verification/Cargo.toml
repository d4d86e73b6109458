[package]
name = "fileindex"
version = "0.1.0"
edition = "2021"
publish = false

[dependencies]
indicatif = "*"
walkdir = "*"
tokio = { version = "*", features = ["rt-multi-thread", "macros", "fs"] }
sqlx = { version = "*", default-features = false, features = ["runtime-tokio", "sqlite"] }
