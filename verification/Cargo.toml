[package]
name = "crow"
version = "0.1.0"
edition = "2021"
publish = false

[dependencies]
ropey = "1.6"
serde_json = "1"
crossterm = "0.27"
regex = "1"
unicode-segmentation = "1"
unicode-width = "0.2"
