[package]
name = "ccv3_pp"
version = "0.1.0"
edition = "2021"
publish = false

[dependencies]
rosu-mods = "*"
rosu-map = "*"
