[package]
name = "piecetedrevival"
version = "0.1.0"
edition = "2021"
publish = false

[dependencies]
base64 = "0.21"
libc = "0.2"
thiserror = "1"
