[package]
name = "perl_wrapper"
version = "0.1.0"
edition = "2021"
publish = false

[dependencies]
anyhow = "1"
os_pipe = "1"
which = "*"
