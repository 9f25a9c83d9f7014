[package]
name = "wort"
version = "0.1.0"
edition = "2021"
publish = false

[dependencies]
rand = "0.8"
clap = "2"
rayon = "1"
minifb = "0.25"
