[package]
name = "pricebridge"
version = "0.1.0"
edition = "2021"
publish = false

[dependencies]
alloy-sol-types = "=0.8.26"
soroban-sdk = "=22.0.11"
