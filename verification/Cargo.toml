[package]
name = "k7z"
version = "0.1.0"
edition = "2021"
publish = false

[dependencies]
clap = { version = "4", features = ["derive"] }
flate2 = "1"
miette = "7"
serde = { version = "1", features = ["derive"] }
serde_json = "1"
sevenz-rust2 = "*"
tar = "0.4"
tempfile = "3"
thiserror = "2"
tracing-subscriber = { version = "0.3", features = ["env-filter"] }
walkdir = "2"
xz2 = "0.1"
zeroize = "1"
zip = { version = "0.6", default-features = false, features = ["deflate"] }
zstd = "0.13"
