[package]
name = "viereck"
version = "0.1.0"
edition = "2021"
publish = false

[dependencies]
stretch = "0.3"
image = { version = "0.25", default-features = false, features = ["png"] }
