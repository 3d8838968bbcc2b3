[package]
name = "private_transactions"
version = "0.1.0"
edition = "2021"
publish = false

[dependencies]
ethcore-bigint = "=0.2.1"
ethcore-bytes = "=0.1.1"
