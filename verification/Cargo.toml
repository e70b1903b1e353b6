[package]
name = "planet_gen"
version = "0.1.0"
edition = "2021"
publish = false

[dependencies]
glm = "*"
rand = "0.6"
