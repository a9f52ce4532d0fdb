[package]
name = "contraflow"
version = "0.1.0"
edition = "2021"
publish = false

[dependencies]
async-std = "1"
async-channel = "1"
async-trait = "0.1"
futures = "0.3"
