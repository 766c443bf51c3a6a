[package]
name = "hylic_docs"
version = "0.1.0"
edition = "2021"
publish = false

[dependencies]
hylic = "=0.8.1"
hylic-pipeline = "=0.8.0"
