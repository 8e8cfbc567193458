[package]
name = "rpc_gateway"
version = "0.1.0"
edition = "2021"
publish = false

[dependencies]
hyper = "0.14"
wd_log = "*"
