[package]
name = "fileshare"
version = "0.1.0"
edition = "2021"
publish = false

[dependencies]
rand = "*"
chrono = "*"
humansize = "*"
rocket = "*"
rocket-multipart-form-data = "*"
