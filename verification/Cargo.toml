[package]
name = "scaii_get"
version = "0.1.0"
edition = "2021"
publish = false

[dependencies]
zip = { version = "0.6", default-features = false, features = ["deflate"] }
clap = "4"
curl = "0.4"
fs2 = "0.4"
git2 = "0.18"
indicatif = "0.17"
walkdir = "2"
