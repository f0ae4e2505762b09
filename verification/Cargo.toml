[package]
name = "raytracer_1weekend"
version = "0.1.0"
edition = "2021"
publish = false

[dependencies]
rand = "*"
glam = "*"
indicatif = "*"
itertools = "*"
