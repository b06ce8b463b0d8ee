[package]
name = "regexer"
version = "0.1.0"
edition = "2021"
publish = false

[dependencies]
regex = "*"
anyhow = "*"
log = "*"
onlyargs = "*"
onlyargs_derive = "*"
simple_logger = "*"
