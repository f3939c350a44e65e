[package]
name = "nested_progress"
version = "0.1.0"
edition = "2021"
publish = false

[dependencies]
itertools = "0.12"
term_size = "0.3"
