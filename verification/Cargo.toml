[package]
name = "assetpipe"
version = "0.1.0"
edition = "2021"
publish = false

[dependencies]
minify-html = "*"
brotlic = "*"
hyper = { version = "0.14", features = ["full"] }
tokio = { version = "1", features = ["full"] }
