[package]
name = "gb2260"
version = "0.1.0"
edition = "2021"
publish = false
