[package]
name = "patternhunt"
version = "0.1.0"
edition = "2021"
publish = false

[dependencies]
regex = "1"
globset = "0.4"
lru = "0.12"
camino = "1"
walkdir = "2"
once_cell = "1"
thiserror = "1"
futures = "0.3"
async-stream = "0.3"
tokio = { version = "1", features = ["fs", "rt", "sync", "time"] }
