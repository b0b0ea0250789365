[package]
name = "subconv"
version = "0.1.0"
edition = "2021"
publish = false

[dependencies]
base64 = "0.22"
url = "2"
urlencoding = "2"
reqwest = { version = "0.12", default-features = false, features = ["blocking"] }
