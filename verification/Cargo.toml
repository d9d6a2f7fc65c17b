[package]
name = "cube_tables"
version = "0.1.0"
edition = "2021"
publish = false

[dependencies]
bincode = "0.9"
serde = "1"
