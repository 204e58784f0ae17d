[package]
name = "cx"
version = "1.3.0"
edition = "2021"
publish = false

[dependencies]
rayon = "1"
clap = "4"
ctrlc = "3"
dirs = "*"
flexi_logger = "*"
log = "0.4"
owo-colors = "*"
