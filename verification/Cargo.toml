[package]
name = "buo"
version = "0.1.0"
edition = "2021"
publish = false

[dependencies]
anyhow = "1"
bincode = "1"
chrono = { version = "0.4", features = ["serde"] }
clap = { version = "4", features = ["derive"] }
dirs = "*"
filesize = "*"
matroska = "*"
once_cell = "1"
rusqlite = "*"
serde = { version = "1", features = ["derive"] }
serde_json = "1"
serde_with = "*"
strum = { version = "*", features = ["derive"] }
symphonia = "*"
tinyvec = "1"
tokei = { version = "*", default-features = false }
