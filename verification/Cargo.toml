[package]
name = "oxidread"
version = "0.1.0"
edition = "2021"
publish = false

[dependencies]
thiserror = "1"
unicode-segmentation = "1"
unicode-width = "0.1"
