[package]
name = "docli"
version = "0.1.0"
edition = "2021"
publish = false

[dependencies]
roxmltree = "0.20"
quick-xml = "0.37"
similar = "2"
minijinja = "2"
docx-rs = "0.4"
serde = { version = "1", features = ["derive"] }
serde_json = "1"
serde_yaml = "0.9"
zip = { version = "2", default-features = false, features = ["deflate"] }
clap = { version = "4", features = ["derive"] }
thiserror = "2"
