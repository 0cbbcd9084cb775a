[package]
name = "roverdb"
version = "0.1.0"
edition = "2021"
publish = false

[dependencies]
owo-colors = "4"
