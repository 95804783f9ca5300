[package]
name = "zk_client"
version = "0.1.0"
edition = "2021"
publish = false

[dependencies]
byteorder = "1"
failure = "0.1"
futures = "0.1"
tokio = "0.1"
