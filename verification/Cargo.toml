[package]
name = "dungeon_core"
version = "0.1.0"
edition = "2021"
publish = false

[dependencies]
rand = "*"
unicode-segmentation = "*"
serde = { version = "*", features = ["derive"] }
serde_json = "*"
crossterm = "*"
textwrap = "*"
