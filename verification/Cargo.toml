[package]
name = "sxd_html"
version = "0.1.0"
edition = "2021"
publish = false

[dependencies]
html5ever = "0.26"
sxd-document = "0.3"

[dev-dependencies]
sxd-xpath = "0.4"
