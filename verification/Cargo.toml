[package]
name = "block_executor"
version = "0.1.0"
edition = "2021"
publish = false

[dependencies]
hyper = "0.14"
move-core-types = "0.0.3"
