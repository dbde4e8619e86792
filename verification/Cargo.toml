[package]
name = "rendergit"
version = "0.1.0"
edition = "2021"
publish = false

[dependencies]
anyhow = "*"
clap = { version = "*", features = ["derive"] }
git2 = "*"
indicatif = "*"
opener = "*"
pulldown-cmark = "*"
syntect = "*"
tempfile = "*"
