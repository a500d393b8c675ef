[package]
name = "mr_xlsx"
version = "0.1.0"
edition = "2021"
publish = false

[dependencies]
quick-xml = "*"
tempfile = "*"
zip = { version = "*", default-features = false, features = ["deflate"] }
