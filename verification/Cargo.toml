[package]
name = "puml"
version = "0.1.0"
edition = "2021"
publish = false

[dependencies]
pulldown-cmark = "*"
pulldown-cmark-to-cmark = "*"
mdbook = { version = "0.4", default-features = false }
serde_json = "*"
clap = "*"
