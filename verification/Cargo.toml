[package]
name = "getprice"
version = "0.1.0"
edition = "2021"
publish = false

[dependencies]
docopt = "1"
quick-error = "2"
reqwest = { version = "0.12", default-features = false, features = ["blocking", "rustls-tls"] }
serde = "1"
serde_derive = "1"
serde_json = "1"
