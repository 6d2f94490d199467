[package]
name = "pil_witgen"
version = "0.1.0"
edition = "2021"
publish = false

[dependencies]
itertools = "=0.15.0"
p3-air = "=0.8.0"
p3-field = "=0.8.0"
p3-matrix = "=0.8.0"
