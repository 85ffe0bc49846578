[package]
name = "vo_table"
version = "0.1.0"
edition = "2021"
publish = false

[dependencies]
base64 = "0.13"
byteorder = "1"
xml-rs = "0.8"
url = "2"
hyper = "0.12"
tokio = "0.1"
