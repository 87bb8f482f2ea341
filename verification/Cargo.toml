[package]
name = "runt"
version = "0.1.0"
edition = "2021"
publish = false

[dependencies]
clap = { version = "4", features = ["string"] }
comrak = { version = "*", default-features = false }
la-arena = "*"
