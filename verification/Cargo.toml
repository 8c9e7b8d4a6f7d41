[package]
name = "songsheet"
version = "0.1.0"
edition = "2021"
publish = false

[dependencies]
cairo-rs = "0.5"
pango = "0.5"
pangocairo = "0.6"
