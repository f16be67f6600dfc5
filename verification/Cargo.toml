[package]
name = "dehtml"
version = "0.1.0"
edition = "2021"
publish = false

[dependencies]
html5ever = "=0.39.0"
markup5ever_rcdom = "=0.39.0"
tendril = "=0.5.1"
url = "=2.5.8"
serde_json = "=1.0.154"
libc = "=0.2.191"
