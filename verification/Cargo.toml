[package]
name = "ce_editor"
version = "0.1.0"
edition = "2021"
publish = false

[dependencies]
ropey = { version = "=1.6.1", default-features = false }
unicode-segmentation = "=1.13.3"
unicode-width = "=0.2.3"
git2 = { version = "=0.21.0", default-features = false }
anyhow = "=1.0.104"
serde = { version = "=1.0.229", features = ["derive"] }
serde_json = "=1.0.154"
crossterm = "=0.29.0"
arboard = { version = "=3.7.0", default-features = false }
tree-sitter = "*"
