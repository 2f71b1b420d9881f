[package]
name = "klondike"
version = "0.1.0"
edition = "2021"
publish = false

[dependencies]
rand = "0.8"
itertools = "0.12"
thiserror = "1"
