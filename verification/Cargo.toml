[package]
name = "exodus"
version = "0.1.0"
edition = "2021"
publish = false

[dependencies]
dirs = "5"
syntect = "5"
