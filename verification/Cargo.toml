[package]
name = "tide_http_auth"
version = "0.1.0"
edition = "2021"
publish = false

[dependencies]
base64 = "0.13"
tide = "0.16"
async-trait = "0.1"
