[package]
name = "dual_contouring"
version = "0.1.0"
edition = "2021"
publish = false

[dependencies]
glam = "*"
