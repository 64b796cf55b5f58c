[package]
name = "bitcoin_prac"
version = "0.1.0"
edition = "2021"
publish = false

[dependencies]
bigint = "4"
rand = "0.8"
sha2 = "0.10"
