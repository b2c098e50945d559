[package]
name = "large_text_viewer"
version = "0.1.0"
edition = "2021"
publish = false

[dependencies]
regex = "*"
encoding_rs = "*"
memmap2 = "*"
anyhow = "*"
