[package]
name = "restack"
version = "0.1.0"
edition = "2021"
publish = false

[dependencies]
anyhow = "*"
duct = "*"
lexopt = "*"
sha2 = "*"
tar = "*"
tempfile = "*"
xz2 = "*"
