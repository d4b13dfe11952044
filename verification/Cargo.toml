[package]
name = "nbody_sim"
version = "0.1.0"
edition = "2021"
publish = false

[dev-dependencies]
physical_constants = "*"
