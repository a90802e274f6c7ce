[package]
name = "velum_core"
version = "0.1.0"
edition = "2021"
publish = false

[dependencies]
regex = "1"
once_cell = "1"
serde = { version = "1", features = ["derive"] }
serde_json = "1"
thiserror = "1"
unicode-bidi = "0.3"
zip = { version = "0.6", default-features = false, features = ["deflate"] }
harfbuzz_rs = "2"
