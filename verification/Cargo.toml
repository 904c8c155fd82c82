[package]
name = "bootsector"
version = "0.2.0"
edition = "2021"
publish = false

[dependencies]
crc = "3"
positioned-io2 = "*"
snafu = "*"
