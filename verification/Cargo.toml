[package]
name = "fuel_gauge"
version = "0.1.0"
edition = "2021"
publish = false

[dependencies]
fs-err = "*"
