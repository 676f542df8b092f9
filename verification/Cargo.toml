[package]
name = "gitobj"
version = "0.1.0"
edition = "2021"
publish = false

[dependencies]
anyhow = "1"
bstr = "1"
digest = "0.10"
flate2 = "1"
hex = "0.4"
itoa = "1"
jiff = "0.2"
memmap2 = "0.9"
sha1 = "0.10"
tempfile = "3"
