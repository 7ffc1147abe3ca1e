[package]
name = "sway_utils"
version = "0.1.0"
edition = "2021"
publish = false

[dependencies]
walkdir = "2"
