[package]
name = "zmp"
version = "0.1.0"
edition = "2021"
publish = false

[dependencies]
anyhow = "*"
async-trait = "*"
id3 = "*"
lofty = "*"
log = "*"
notify = "*"
rand = "*"
rodio = "*"
serde = { version = "*", features = ["derive"] }
serde_json = "*"
sqlx = { version = "*", default-features = false, features = ["sqlite", "runtime-tokio", "macros", "migrate"] }
tokio = { version = "*", features = ["rt-multi-thread", "macros", "sync", "time"] }
walkdir = "*"
