[package]
name = "gleam_typing"
version = "0.1.0"
edition = "2021"
publish = false

[dependencies]
itertools = "*"
vec1 = "*"
