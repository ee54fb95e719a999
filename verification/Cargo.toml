[package]
name = "log0"
version = "0.1.0"
edition = "2021"
publish = false

[dependencies]
anyhow = "1"
ctrlc = "3"
gimli = "*"
object = "*"
probe-rs = "*"
structopt = "0.3"
xmas-elf = "*"
