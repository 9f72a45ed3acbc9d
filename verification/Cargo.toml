[package]
name = "text_document"
version = "0.1.0"
edition = "2021"
publish = false

[dependencies]
pulldown-cmark = "0.13"
jotdown = "0.10"
scraper = "*"
ego-tree = "*"
base64 = "0.22"
unicode-segmentation = "1"
im = "15"
ropey = "1"
serde = { version = "1", features = ["derive"] }
thiserror = "2"
anyhow = "1"
chrono = { version = "0.4", default-features = false, features = ["clock", "std"] }
parking_lot = "0.12"

[dev-dependencies]
serde_json = "1"
