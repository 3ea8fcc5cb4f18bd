[package]
name = "httpc"
version = "0.1.0"
edition = "2021"
publish = false

[dependencies]
url = "*"
jsonxf = "*"
colored = "*"
reqwest = { version = "*", default-features = false, features = ["blocking"] }
