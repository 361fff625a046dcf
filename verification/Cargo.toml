[package]
name = "cmx_sheet"
version = "0.1.0"
edition = "2021"
publish = false

[dependencies]
regex = "=1.13.1"
zip = { version = "=2.6.1", default-features = false, features = ["deflate", "time"] }
serde = { version = "=1.0.229", features = ["derive"] }
serde_json = "=1.0.154"
printpdf = "=0.12.8"
