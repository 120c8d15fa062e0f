[package]
name = "aqueduct"
version = "0.1.0"
edition = "2021"
publish = false

[dependencies]
async-trait = "0.1"
embedded-io = "0.6"
embedded-storage = "0.3"
futures-io = "0.3"
