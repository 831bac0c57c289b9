[package]
name = "templater_rs"
version = "0.1.0"
edition = "2021"

[dependencies]
thiserror = "1"
unicode-segmentation = "1"
