[package]
name = "bbx"
version = "0.3.0"
edition = "2021"
publish = false

[dependencies]
bitflags = "2"
html-escape = "0.2"
static_assertions = "1.1"
