[package]
name = "dhc3po"
version = "0.1.0"
edition = "2021"
publish = false
