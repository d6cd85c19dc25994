[package]
name = "stackmap"
version = "0.1.0"
edition = "2021"
publish = false

[dependencies]
nom = "7"
fallible-iterator = "0.2"
snafu = "0.7"
anyhow = "1"
memmap2 = "0.5"
object = "*"
structopt = "0.3"
