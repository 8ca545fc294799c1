[package]
name = "arena_filter"
version = "0.1.0"
edition = "2021"
publish = false

[dependencies]
nom = "=8.0.0"
anyhow = "=1.0.104"
