[package]
name = "gbtile"
version = "0.2.0"
edition = "2021"
publish = false

[dependencies]
clap = "2"
log = "0.4"
png = "0.16"
simple_logger = "1"
