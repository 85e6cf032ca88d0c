[package]
name = "swapvec"
version = "0.1.0"
edition = "2021"
publish = false

[dependencies]
serde = "1"
bincode = "1"
tempfile = "3"
lz4_flex = "*"
miniz_oxide = "*"
