[package]
name = "std_links"
version = "0.1.0"
edition = "2021"
publish = false

[dependencies]
pulldown-cmark = "=0.13.4"
mdbook = { version = "=0.4.52", default-features = false }
tempfile = "=3.27.0"
