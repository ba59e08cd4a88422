[package]
name = "epubgrep"
version = "0.1.0"
edition = "2021"
publish = false

[dependencies]
argh = "0.1"
atty = "0.2"
percent-encoding = "2"
regex = "1"
termcolor = "1"
xml-rs = "0.8"
zip = { version = "0.6", default-features = false, features = ["deflate"] }
