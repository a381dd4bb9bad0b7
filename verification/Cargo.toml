[package]
name = "kale_prediction"
version = "0.1.0"
edition = "2021"
publish = false

[dependencies]
soroban-sdk = "22"
