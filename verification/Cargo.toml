[package]
name = "word_finder"
version = "0.1.0"
edition = "2021"
publish = false

[dependencies]
colog = "1"
log = "0.4"
ratatui = "0.27"
