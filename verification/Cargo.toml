[package]
name = "amm_router"
version = "0.1.0"
edition = "2021"
publish = false

[dependencies]
petgraph = "*"
alloy-primitives = "*"
