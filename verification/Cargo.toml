[package]
name = "nakati"
version = "0.1.0"
edition = "2021"
publish = false

[dependencies]
unicode-segmentation = "=1.13.3"
emojis = "=0.9.1"
parking_lot = "=0.12.5"
