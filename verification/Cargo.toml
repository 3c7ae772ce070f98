[package]
name = "website_compiler"
version = "0.1.0"
edition = "2021"
publish = false

[dependencies]
anyhow = "1"
clap = "4"
regex = "1"
serde_json = "1"
walkdir = "2"
