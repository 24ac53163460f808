[package]
name = "fontpack"
version = "0.1.0"
edition = "2021"
publish = false

[dependencies]
png = "*"
chrono = "*"
structopt = "*"
strum = "*"
strum_macros = "*"
