[package]
name = "libcosmic"
version = "0.1.0"
edition = "2021"
publish = false

[dependencies]
unicode-segmentation = "=1.13.3"
iced = { version = "=0.13.1", default-features = false, features = ["advanced"] }
iced_native = "0.9"
