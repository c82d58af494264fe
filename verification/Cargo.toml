[package]
name = "parmeta"
version = "0.1.0"
edition = "2021"
publish = false

[dev-dependencies]
thrift = "*"
thrift_codec = "*"
