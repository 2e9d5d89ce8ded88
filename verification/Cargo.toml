[package]
name = "baml_elixir"
version = "0.1.0"
edition = "2021"
publish = false

[dependencies]
rustler = "*"
