[package]
name = "gpio_cli"
version = "0.1.0"
edition = "2021"

[dependencies]
rppal = "*"
