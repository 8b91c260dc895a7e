[package]
name = "fast_zip"
version = "0.1.0"
edition = "2021"
publish = false

[dependencies]
fast_stream = "=0.0.1"
indexmap = "=2.14.2"
miniz_oxide = "*"
thiserror = "=2.0.21"
