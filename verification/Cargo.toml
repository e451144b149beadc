[package]
name = "dessin"
version = "0.1.0"
edition = "2021"
publish = false

[dependencies]
data-encoding = "2"
syn = { version = "2", features = ["full"] }
quote = "1"
proc-macro2 = "1"
nalgebra = "*"
palette = "*"
fontdb = "*"
base64 = "0.21"
