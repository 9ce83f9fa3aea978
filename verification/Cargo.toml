[package]
name = "thrust"
version = "0.1.0"
edition = "2021"
publish = false

[dependencies]
mio = "0.5"
bytes = "0.3"
handlebars = "0.20"
rustc-serialize = "0.3"
