[package]
name = "fat_piggy_bank"
version = "0.1.0"
edition = "2021"
publish = false

[dependencies]
rust_decimal = "1"
unicode-segmentation = "1"
