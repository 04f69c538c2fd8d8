[package]
name = "mini_parc"
version = "0.1.0"
edition = "2021"
publish = false

[dependencies]
miette = "*"
thiserror = "*"
