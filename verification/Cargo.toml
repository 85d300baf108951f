[package]
name = "embedded_text"
version = "0.1.0"
edition = "2021"

[dependencies]
embedded-graphics = "=0.6.2"
