[package]
name = "grpc_web"
version = "0.1.0"
edition = "2021"
publish = false

[dependencies]
futures = "0.1"
http = "*"
tower = "0.1"
