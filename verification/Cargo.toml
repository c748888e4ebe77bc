[package]
name = "bma_benchmark"
version = "0.1.0"
edition = "2021"
publish = false

[dependencies]
num-format = "*"
colored = "*"
prettytable-rs = "*"
terminal_size = "*"
lazy_static = "*"
