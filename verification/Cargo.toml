[package]
name = "zerobrew"
version = "0.1.0"
edition = "2021"
publish = false

[dependencies]
arwen = "*"
chrono = "*"
object = "*"
rayon = "*"
rusqlite = { version = "*", features = ["bundled"] }
serde_json = "*"
walkdir = "*"
