[package]
name = "mdbook_gabc"
version = "0.1.0"
edition = "2021"
publish = false

[dependencies]
pulldown-cmark = "0.9"
mdbook = { version = "0.4", default-features = false }
