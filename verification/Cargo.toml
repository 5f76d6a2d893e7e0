[package]
name = "httm"
version = "0.1.0"
edition = "2021"
publish = false

[dependencies]
crossbeam = "0.8"
fxhash = "0.2"
itertools = "0.10"
lscolors = "0.13"
rayon = "1"
skim = { version = "0.10", default-features = false }
