[package]
name = "flatten"
version = "0.1.0"
edition = "2021"
publish = false

[dependencies]
ignore = "0.4"
syntect = { version = "5", default-features = false, features = ["parsing", "default-syntaxes", "regex-fancy"] }
structopt = "0.3"
chrono = "0.4"

[dev-dependencies]
tempfile = "3"
