[package]
name = "skid"
version = "0.1.0"
edition = "2021"
publish = false

[dependencies]
ansi_term = "0.12"
chrono = { version = "0.4", default-features = false, features = ["std", "clock"] }
dirs = "4"
rustyline = "9"
